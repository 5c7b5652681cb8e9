//! Paths derived from the segments of a request below `/source/`.
use vstd::prelude::*;
use crate::listing::is_dir_prefix;
use crate::text::{chars_of, string_of};

verus! {

pub open spec fn segments_view(v: Seq<String>) -> Seq<Seq<char>> {
    v.map_values(|s: String| s@)
}

/// The segments joined by `/`.
pub open spec fn join(segs: Seq<Seq<char>>) -> Seq<char>
    decreases segs.len(),
{
    if segs.len() == 0 {
        Seq::empty()
    } else if segs.len() == 1 {
        segs[0]
    } else {
        join(segs.drop_last()) + seq!['/'] + segs.last()
    }
}

/// The directory that a request names: the request path with its last
/// segment blanked.
pub open spec fn dir_prefix_of(segs: Seq<Seq<char>>) -> Seq<char> {
    if segs.len() == 0 {
        Seq::empty()
    } else {
        join(segs.drop_last().push(Seq::empty()))
    }
}

/// Whether a file is fetched for the path: not for a directory, which is an
/// empty path or one that ends in a separator.
pub open spec fn names_file(file_path: Seq<char>) -> bool {
    file_path.len() > 0 && file_path.last() != '/'
}

/// The first `n` segments joined by `/`.
fn join_first(segs: &Vec<String>, n: usize) -> (r: Vec<char>)
    requires
        n <= segs.len(),
    ensures
        r@ == join(segments_view(segs@).take(n as int)),
{
    let ghost sv = segments_view(segs@);
    let mut out: Vec<char> = Vec::new();
    let mut i: usize = 0;
    assert(sv.take(0) =~= Seq::<Seq<char>>::empty());
    while i < n
        invariant
            n <= segs.len(),
            sv == segments_view(segs@),
            0 <= i <= n,
            out@ == join(sv.take(i as int)),
        decreases n - i,
    {
        if i > 0 {
            out.push('/');
        }
        let mut seg = chars_of(segs[i].as_str());
        let ghost prev = out@;
        out.append(&mut seg);
        assert(sv.take(i + 1).drop_last() =~= sv.take(i as int));
        assert(sv.take(i + 1).last() == sv[i as int]);
        if i == 0 {
            assert(out@ =~= join(sv.take(1)));
        } else {
            assert(out@ =~= join(sv.take(i + 1)));
        }
        i = i + 1;
    }
    out
}

/// The full path below `/source/`, from which a file is fetched.
pub fn file_path_of(segs: &Vec<String>) -> (r: String)
    ensures
        r@ == join(segments_view(segs@)),
{
    let v = join_first(segs, segs.len());
    assert(segments_view(segs@).take(segs.len() as int) =~= segments_view(segs@));
    string_of(&v)
}

/// The directory that a request names, whose children are listed.
pub fn dir_prefix(segs: &Vec<String>) -> (r: String)
    ensures
        r@ == dir_prefix_of(segments_view(segs@)),
        is_dir_prefix(r@),
{
    let ghost sv = segments_view(segs@);
    if segs.len() <= 1 {
        let v: Vec<char> = Vec::new();
        proof {
            if sv.len() == 1 {
                assert(sv.drop_last().push(Seq::empty()).len() == 1);
                assert(v@ =~= dir_prefix_of(sv));
            }
        }
        return string_of(&v);
    }
    let mut v = join_first(segs, segs.len() - 1);
    v.push('/');
    proof {
        let t = sv.drop_last().push(Seq::<char>::empty());
        assert(t.drop_last() =~= sv.take(segs.len() - 1));
        assert(v@ =~= join(t));
    }
    string_of(&v)
}

/// Whether the request names a file to fetch.
pub fn should_fetch(file_path: &str) -> (r: bool)
    ensures
        r == names_file(file_path@),
{
    let v = chars_of(file_path);
    v.len() > 0 && v[v.len() - 1] != '/'
}

} // verus!
