//! Unix path algebra over strings: `join`, the final component and its stem and
//! extension, and replacing the final component. Paths are plain strings; the
//! functions follow the component rules of `std::path` on Unix: repeated
//! separators and `.` segments are normalised away, a leading `/` is the root
//! and a leading `.` segment of a relative path is kept.

use vstd::prelude::*;
use crate::text::{chars_of, last_index, lemma_last_index, rfind_char, slice_chars, string_of};

verus! {

/// `Path::join` / `PathBuf::push`: an absolute `b` replaces `a`; otherwise `b` is
/// appended, with a `/` in between unless `a` is empty or already ends in `/`.
pub open spec fn join_spec(a: Seq<char>, b: Seq<char>) -> Seq<char> {
    if b.len() > 0 && b[0] == '/' {
        b
    } else if a.len() > 0 && a.last() != '/' {
        a + seq!['/'] + b
    } else {
        a + b
    }
}

/// One path segment: non-empty, with no `/` in it.
pub open spec fn segment(s: Seq<char>) -> bool {
    s.len() > 0 && forall|i: int| 0 <= i < s.len() ==> #[trigger] s[i] != '/'
}

/// Length of what precedes the body of the path: the root `/`, or the leading `.`
/// of a relative path that starts with a current-directory component.
pub open spec fn prefix_len(p: Seq<char>) -> nat {
    if p.len() > 0 && p[0] == '/' {
        1
    } else if p.len() == 1 && p[0] == '.' {
        1
    } else if p.len() >= 2 && p[0] == '.' && p[1] == '/' {
        1
    } else {
        0
    }
}

/// Length of `p` once trailing separators and trailing `.` segments are dropped,
/// never cutting into the first `floor` characters.
pub open spec fn tail_len(p: Seq<char>, floor: nat) -> nat
    decreases p.len(),
{
    if p.len() <= floor {
        p.len()
    } else if p.last() == '/' {
        tail_len(p.drop_last(), floor)
    } else if p.last() == '.' && (p.len() - 1 == floor || p[p.len() - 2] == '/') {
        tail_len(p.drop_last(), floor)
    } else {
        p.len()
    }
}

/// Start of the segment that ends at `e` (just past the last `/` before `e`).
pub open spec fn seg_start(p: Seq<char>, e: nat) -> nat {
    match last_index(p.subrange(0, e as int), '/') {
        Some(k) => k + 1,
        None => 0,
    }
}

/// Bounds `(start, end)` of the final component of `p`, if the path has a body.
pub open spec fn final_span(p: Seq<char>) -> Option<(nat, nat)> {
    let e = tail_len(p, prefix_len(p));
    if e <= prefix_len(p) {
        None
    } else {
        Some((seg_start(p, e), e))
    }
}

/// `Path::file_name`: the final component, unless there is none or it is `..`.
pub open spec fn file_name_spec(p: Seq<char>) -> Option<Seq<char>> {
    match final_span(p) {
        None => None,
        Some((s, e)) => if p.subrange(s as int, e as int) == seq!['.', '.'] {
            None
        } else {
            Some(p.subrange(s as int, e as int))
        },
    }
}

/// The part of a file name before its last `.`, when that `.` is not the first char.
pub open spec fn stem_of(f: Seq<char>) -> Seq<char> {
    match last_index(f, '.') {
        Some(d) => if d > 0 {
            f.subrange(0, d as int)
        } else {
            f
        },
        None => f,
    }
}

/// The part of a file name after its last `.`, when that `.` is not the first char.
pub open spec fn ext_of(f: Seq<char>) -> Option<Seq<char>> {
    match last_index(f, '.') {
        Some(d) => if d > 0 {
            Some(f.subrange((d + 1) as int, f.len() as int))
        } else {
            None
        },
        None => None,
    }
}

/// `Path::file_stem`.
pub open spec fn file_stem_spec(p: Seq<char>) -> Option<Seq<char>> {
    match file_name_spec(p) {
        Some(f) => Some(stem_of(f)),
        None => None,
    }
}

/// `Path::extension`.
pub open spec fn extension_spec(p: Seq<char>) -> Option<Seq<char>> {
    match file_name_spec(p) {
        Some(f) => ext_of(f),
        None => None,
    }
}

/// `Path::parent` of a path whose final component spans from `s`.
pub open spec fn parent_of(p: Seq<char>, s: nat) -> Seq<char> {
    p.subrange(0, tail_len(p.subrange(0, s as int), prefix_len(p)) as int)
}

/// `Path::with_file_name`: replace the final component by `name`, or append
/// `name` when the path has no file name.
pub open spec fn with_file_name_spec(p: Seq<char>, name: Seq<char>) -> Seq<char> {
    match file_name_spec(p) {
        None => join_spec(p, name),
        Some(_) => match final_span(p) {
            Some((s, _)) => join_spec(parent_of(p, s), name),
            None => join_spec(p, name),
        },
    }
}

pub proof fn lemma_tail_len(p: Seq<char>, floor: nat)
    ensures
        tail_len(p, floor) <= p.len(),
        p.len() >= floor ==> tail_len(p, floor) >= floor,
        tail_len(p, floor) < p.len() ==> tail_len(p, floor) >= floor,
    decreases p.len(),
{
    if p.len() <= floor {
    } else if p.last() == '/' {
        lemma_tail_len(p.drop_last(), floor);
    } else if p.last() == '.' && (p.len() - 1 == floor || p[p.len() - 2] == '/') {
        lemma_tail_len(p.drop_last(), floor);
    }
}

pub fn join_chars(a: &Vec<char>, b: &Vec<char>) -> (r: Vec<char>)
    ensures
        r@ == join_spec(a@, b@),
{
    if b.len() > 0 && b[0] == '/' {
        return slice_chars(b, 0, b.len());
    }
    let mut r = slice_chars(a, 0, a.len());
    if a.len() > 0 && a[a.len() - 1] != '/' {
        r.push('/');
    }
    let mut i: usize = 0;
    let ghost base = r@;
    while i < b.len()
        invariant
            i <= b.len(),
            r@ == base + b@.take(i as int),
        decreases b.len() - i,
    {
        r.push(b[i]);
        assert(b@.take(i + 1) == b@.take(i as int).push(b@[i as int]));
        i = i + 1;
    }
    assert(b@.take(b.len() as int) =~= b@);
    assert(a@.subrange(0, a.len() as int) =~= a@);
    assert(b@.subrange(0, b.len() as int) =~= b@);
    r
}

/// `Path::join` on strings.
pub fn join(a: &str, b: &str) -> (r: String)
    ensures
        r@ == join_spec(a@, b@),
{
    let av = chars_of(a);
    let bv = chars_of(b);
    string_of(&join_chars(&av, &bv))
}

fn prefix_len_exec(p: &Vec<char>) -> (r: usize)
    ensures
        r == prefix_len(p@),
{
    if p.len() > 0 && p[0] == '/' {
        1
    } else if p.len() == 1 && p[0] == '.' {
        1
    } else if p.len() >= 2 && p[0] == '.' && p[1] == '/' {
        1
    } else {
        0
    }
}

/// Length of `p[..end]` once trailing separators and `.` segments are dropped.
fn tail_len_exec(p: &Vec<char>, end: usize, floor: usize) -> (r: usize)
    requires
        end <= p.len(),
    ensures
        r == tail_len(p@.subrange(0, end as int), floor as nat),
{
    let mut n = end;
    loop
        invariant
            n <= end <= p.len(),
            tail_len(p@.subrange(0, end as int), floor as nat) == tail_len(
                p@.subrange(0, n as int),
                floor as nat,
            ),
        decreases n,
    {
        let ghost q = p@.subrange(0, n as int);
        if n <= floor {
            return n;
        }
        assert(q.drop_last() =~= p@.subrange(0, n - 1));
        if p[n - 1] == '/' {
            n = n - 1;
        } else if p[n - 1] == '.' && (n - 1 == floor || p[n - 2] == '/') {
            n = n - 1;
        } else {
            return n;
        }
    }
}

/// Bounds of the final component of `p`.
pub fn final_span_exec(p: &Vec<char>) -> (r: Option<(usize, usize)>)
    ensures
        match r {
            None => final_span(p@) is None,
            Some((s, e)) => final_span(p@) == Some((s as nat, e as nat)) && s <= e <= p.len(),
        },
{
    let f = prefix_len_exec(p);
    let e = tail_len_exec(p, p.len(), f);
    assert(p@.subrange(0, p.len() as int) =~= p@);
    proof {
        lemma_tail_len(p@, f as nat);
    }
    if e <= f {
        return None;
    }
    proof {
        lemma_last_index(p@.subrange(0, e as int), '/');
    }
    let s = match rfind_char(p, e, '/') {
        Some(k) => k + 1,
        None => 0,
    };
    Some((s, e))
}

fn is_dot_dot(p: &Vec<char>, s: usize, e: usize) -> (r: bool)
    requires
        s <= e <= p.len(),
    ensures
        r == (p@.subrange(s as int, e as int) == seq!['.', '.']),
{
    if e - s == 2 && p[s] == '.' && p[s + 1] == '.' {
        assert(p@.subrange(s as int, e as int) =~= seq!['.', '.']);
        true
    } else {
        let ghost dd = seq!['.', '.'];
        assert(dd.len() == 2 && dd[0] == '.' && dd[1] == '.');
        if e - s == 2 {
            assert(p@.subrange(s as int, e as int)[0] == p@[s as int]);
            assert(p@.subrange(s as int, e as int)[1] == p@[s + 1]);
        } else {
            assert(p@.subrange(s as int, e as int).len() != dd.len());
        }
        false
    }
}

/// `Path::file_name`, as characters.
pub fn file_name_chars(p: &Vec<char>) -> (r: Option<Vec<char>>)
    ensures
        match r {
            None => file_name_spec(p@) is None,
            Some(f) => file_name_spec(p@) == Some(f@),
        },
{
    match final_span_exec(p) {
        None => None,
        Some((s, e)) => {
            if is_dot_dot(p, s, e) {
                None
            } else {
                Some(slice_chars(p, s, e))
            }
        },
    }
}

fn last_dot(f: &Vec<char>) -> (r: Option<usize>)
    ensures
        match r {
            Some(k) => last_index(f@, '.') == Some(k as nat),
            None => last_index(f@, '.') is None,
        },
{
    let r = rfind_char(f, f.len(), '.');
    assert(f@.subrange(0, f.len() as int) =~= f@);
    r
}

/// `Path::file_stem`, as characters.
pub fn file_stem_chars(p: &Vec<char>) -> (r: Option<Vec<char>>)
    ensures
        match r {
            None => file_stem_spec(p@) is None,
            Some(f) => file_stem_spec(p@) == Some(f@),
        },
{
    match file_name_chars(p) {
        None => None,
        Some(f) => {
            proof {
                lemma_last_index(f@, '.');
            }
            match last_dot(&f) {
                Some(d) => {
                    if d > 0 {
                        Some(slice_chars(&f, 0, d))
                    } else {
                        Some(f)
                    }
                },
                None => Some(f),
            }
        },
    }
}

/// `Path::extension`, as characters.
pub fn extension_chars(p: &Vec<char>) -> (r: Option<Vec<char>>)
    ensures
        match r {
            None => extension_spec(p@) is None,
            Some(f) => extension_spec(p@) == Some(f@),
        },
{
    match file_name_chars(p) {
        None => None,
        Some(f) => {
            proof {
                lemma_last_index(f@, '.');
            }
            match last_dot(&f) {
                Some(d) => {
                    if d > 0 {
                        Some(slice_chars(&f, d + 1, f.len()))
                    } else {
                        None
                    }
                },
                None => None,
            }
        },
    }
}

/// `Path::with_file_name` on strings.
pub fn with_file_name(p: &str, name: &str) -> (r: String)
    ensures
        r@ == with_file_name_spec(p@, name@),
{
    let pv = chars_of(p);
    let nv = chars_of(name);
    match final_span_exec(&pv) {
        None => string_of(&join_chars(&pv, &nv)),
        Some((s, e)) => {
            if is_dot_dot(&pv, s, e) {
                string_of(&join_chars(&pv, &nv))
            } else {
                let f = prefix_len_exec(&pv);
                let pe = tail_len_exec(&pv, s, f);
                assert(pv@.subrange(0, s as int).subrange(0, s as int) =~= pv@.subrange(0, s as int));
                proof {
                    lemma_tail_len(pv@.subrange(0, s as int), f as nat);
                }
                let parent = slice_chars(&pv, 0, pe);
                string_of(&join_chars(&parent, &nv))
            }
        },
    }
}

} // verus!
