use vstd::prelude::*;
use crate::text::push_char;

verus! {

/// The non-empty `/`-separated segments of `p`, with the segment still open
/// at the end of `p`.
pub open spec fn split_segments(p: Seq<char>) -> (Seq<Seq<char>>, Seq<char>)
    decreases p.len(),
{
    if p.len() == 0 {
        (Seq::empty(), Seq::empty())
    } else {
        let (done, cur) = split_segments(p.drop_last());
        if p.last() == '/' {
            if cur.len() > 0 {
                (done.push(cur), Seq::empty())
            } else {
                (done, Seq::empty())
            }
        } else {
            (done, cur.push(p.last()))
        }
    }
}

/// The non-empty `/`-separated segments of `p`, in order.
pub open spec fn segments(p: Seq<char>) -> Seq<Seq<char>> {
    let (done, cur) = split_segments(p);
    if cur.len() > 0 {
        done.push(cur)
    } else {
        done
    }
}

pub open spec fn strings_view(v: Seq<String>) -> Seq<Seq<char>> {
    v.map_values(|s: String| s@)
}

/// The route segments that a navigation link to `path` leads to: its
/// non-empty segments, or `pages/home` for a path made of slashes alone.
pub fn path_to_route(path: &str) -> (r: Option<Vec<String>>)
    ensures
        r is Some,
        segments(path@).len() > 0 ==> strings_view(r->0@) == segments(path@),
        segments(path@).len() == 0 ==> strings_view(r->0@) == seq!["pages"@, "home"@],
{
    let n = path.unicode_len();
    let mut done: Vec<String> = Vec::new();
    let mut cur = String::new();
    let mut i: usize = 0;
    assert(path@.subrange(0, 0) =~= Seq::<char>::empty());
    assert(strings_view(done@) =~= Seq::<Seq<char>>::empty());
    while i < n
        invariant
            n == path@.len(),
            i <= n,
            split_segments(path@.subrange(0, i as int)) == (strings_view(done@), cur@),
        decreases n - i,
    {
        assert(path@.subrange(0, i + 1).drop_last() =~= path@.subrange(0, i as int));
        let c = path.get_char(i);
        let ghost before = done@;
        if c == '/' {
            if cur.unicode_len() > 0 {
                done.push(cur);
                assert(strings_view(done@) =~= strings_view(before).push(done@.last()@));
            }
            cur = String::new();
        } else {
            push_char(&mut cur, c);
        }
        i = i + 1;
    }
    assert(path@.subrange(0, n as int) =~= path@);
    if cur.unicode_len() > 0 {
        let ghost before = done@;
        done.push(cur);
        assert(strings_view(done@) =~= strings_view(before).push(done@.last()@));
    }
    if done.len() == 0 {
        let home = vec![String::from_str("pages"), String::from_str("home")];
        assert(strings_view(home@) =~= seq!["pages"@, "home"@]);
        Some(home)
    } else {
        Some(done)
    }
}

} // verus!
