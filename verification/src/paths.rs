use vstd::prelude::*;

verus! {

/// The character sequences a sequence of strings denotes.
pub open spec fn views_of(v: Seq<String>) -> Seq<Seq<char>> {
    v.map_values(|s: String| s@)
}

/// One step of path splitting: `rest` is what is still to be read, `cur`
/// the segment collected so far, `acc` the segments already finished.
pub open spec fn seg_fold(rest: Seq<char>, cur: Seq<char>, acc: Seq<Seq<char>>) -> Seq<
    Seq<char>,
>
    decreases rest.len(),
{
    if rest.len() == 0 {
        if cur.len() == 0 {
            acc
        } else {
            acc.push(cur)
        }
    } else if rest[0] == '/' {
        seg_fold(
            rest.skip(1),
            Seq::empty(),
            if cur.len() == 0 {
                acc
            } else {
                acc.push(cur)
            },
        )
    } else {
        seg_fold(rest.skip(1), cur.push(rest[0]), acc)
    }
}

/// The segments of a request path: the maximal runs of characters between
/// slashes, empty runs discarded. `"/a/b"` has segments `["a", "b"]`,
/// `"/"` has none.
pub open spec fn path_segments(s: Seq<char>) -> Seq<Seq<char>> {
    seg_fold(s, Seq::empty(), Seq::empty())
}

/// Split a request path into its segments, as `path_segments` describes.
pub fn split_path(path: &str) -> (segs: Vec<String>)
    ensures
        views_of(segs@) == path_segments(path@),
{
    let n = path.unicode_len();
    let mut segs: Vec<String> = Vec::new();
    let mut seg_start: usize = 0;
    let mut i: usize = 0;
    proof {
        assert(path@.skip(0) =~= path@);
        assert(path@.subrange(0, 0) =~= Seq::<char>::empty());
        assert(views_of(segs@) =~= Seq::<Seq<char>>::empty());
    }
    while i < n
        invariant
            n == path@.len(),
            seg_start <= i <= n,
            seg_fold(path@.skip(i as int), path@.subrange(seg_start as int, i as int), views_of(segs@))
                == path_segments(path@),
        decreases n - i,
    {
        let ghost pre_views = views_of(segs@);
        let ghost cur = path@.subrange(seg_start as int, i as int);
        let c = path.get_char(i);
        proof {
            assert(path@.skip(i as int)[0] == path@[i as int]);
            assert(path@.skip(i as int).skip(1) =~= path@.skip(i + 1));
        }
        if c == '/' {
            if seg_start < i {
                let piece = path.substring_char(seg_start, i).to_owned();
                segs.push(piece);
                proof {
                    assert(views_of(segs@) =~= pre_views.push(cur));
                }
            }
            seg_start = i + 1;
            proof {
                assert(path@.subrange(seg_start as int, seg_start as int) =~= Seq::<
                    char,
                >::empty());
            }
        } else {
            proof {
                assert(path@.subrange(seg_start as int, i + 1) =~= cur.push(path@[i as int]));
            }
        }
        i = i + 1;
    }
    proof {
        assert(path@.skip(n as int) =~= Seq::<char>::empty());
    }
    if seg_start < n {
        let ghost pre_views = views_of(segs@);
        let ghost cur = path@.subrange(seg_start as int, n as int);
        let piece = path.substring_char(seg_start, n).to_owned();
        segs.push(piece);
        proof {
            assert(views_of(segs@) =~= pre_views.push(cur));
        }
    }
    segs
}

} // verus!
