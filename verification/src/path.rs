//! File-name parts of paths held as text: the final component, its
//! extension, and extension replacement.
use crate::parse::string_of;
use crate::text::{chars_of, eq_ignore_case, same_ignoring_ascii_case};
use vstd::utf8::*;
use vstd::prelude::*;

verus! {

/// Component separators; both are accepted on the runtime's platform.
pub open spec fn is_sep(c: char) -> bool {
    c == '/' || c == '\\'
}

/// Start of the component that ends at `n`.
pub open spec fn component_start(s: Seq<char>, n: int) -> int
    decreases n,
{
    if n <= 0 || n > s.len() {
        0
    } else if is_sep(s[n - 1]) {
        n
    } else {
        component_start(s, n - 1)
    }
}

/// Position range of the final normal component among `s[..n]`: separators
/// and `.` components at the end are skipped, and a final `..` has no name.
pub open spec fn name_span(s: Seq<char>, n: int) -> Option<(int, int)>
    decreases n,
{
    if n <= 0 || n > s.len() {
        None
    } else if is_sep(s[n - 1]) {
        name_span(s, n - 1)
    } else {
        let st = component_start(s, n);
        if st >= n || st < 0 {
            None
        } else if s.subrange(st, n) == "."@ {
            name_span(s, st)
        } else if s.subrange(st, n) == ".."@ {
            None
        } else {
            Some((st, n))
        }
    }
}

/// Position range of the file name of a path.
pub open spec fn file_name_span(s: Seq<char>) -> Option<(int, int)> {
    name_span(s, s.len() as int)
}

/// Position of the last `.` in `s[a..b]`.
pub open spec fn last_dot(s: Seq<char>, a: int, b: int) -> Option<int>
    decreases b - a,
{
    if b <= a {
        None
    } else if s[b - 1] == '.' {
        Some(b - 1)
    } else {
        last_dot(s, a, b - 1)
    }
}

/// Position range of the extension: after the last `.` of the file name,
/// unless that `.` starts the name.
pub open spec fn extension_span(s: Seq<char>) -> Option<(int, int)> {
    match file_name_span(s) {
        Some((a, b)) => match last_dot(s, a, b) {
            Some(d) => if d == a { None } else { Some((d + 1, b)) },
            None => None,
        },
        None => None,
    }
}

/// The extension of a path.
pub open spec fn extension_of(s: Seq<char>) -> Option<Seq<char>> {
    match extension_span(s) {
        Some((a, b)) => Some(s.subrange(a, b)),
        None => None,
    }
}

/// End of the file stem: the file name without `.` and its extension.
pub open spec fn stem_end(s: Seq<char>) -> Option<int> {
    match file_name_span(s) {
        Some((a, b)) => match extension_span(s) {
            Some((e, _)) => Some(e - 1),
            None => Some(b),
        },
        None => None,
    }
}

/// The path with its extension replaced, as `PathBuf::set_extension` does:
/// cut after the stem, then append `.ext` unless `ext` is empty. A path
/// without a file name is unchanged.
pub open spec fn with_extension(s: Seq<char>, ext: Seq<char>) -> Seq<char> {
    match stem_end(s) {
        Some(e) => if ext.len() == 0 { s.take(e) } else { s.take(e) + "."@ + ext },
        None => s,
    }
}

fn is_separator(c: char) -> (r: bool)
    ensures
        r == is_sep(c),
{
    c == '/' || c == '\\'
}

fn start_of_component(s: &Vec<char>, n: usize) -> (r: usize)
    requires
        n <= s@.len(),
    ensures
        r == component_start(s@, n as int),
        r <= n,
    decreases n,
{
    if n == 0 {
        0
    } else if is_separator(s[n - 1]) {
        n
    } else {
        start_of_component(s, n - 1)
    }
}

proof fn lemma_component_start_sep(s: Seq<char>, n: int)
    requires
        0 <= n <= s.len(),
    ensures
        0 <= component_start(s, n) <= n,
        component_start(s, n) > 0 ==> is_sep(s[component_start(s, n) - 1]),
        forall|k: int| component_start(s, n) <= k < n ==> !is_sep(#[trigger] s[k]),
    decreases n,
{
    if n > 0 && !is_sep(s[n - 1]) {
        lemma_component_start_sep(s, n - 1);
    }
}

fn is_dot_component(s: &Vec<char>, a: usize, b: usize, dots: usize) -> (r: bool)
    requires
        a <= b <= s@.len(),
        dots == 1 || dots == 2,
    ensures
        r == (s@.subrange(a as int, b as int) == if dots == 1 { "."@ } else { ".."@ }),
{
    proof {
        reveal_strlit(".");
        reveal_strlit("..");
        assert("."@ =~= seq!['.']);
        assert(".."@ =~= seq!['.', '.']);
    }
    if b - a != dots {
        return false;
    }
    let r = s[a] == '.' && (dots == 1 || s[a + 1] == '.');
    proof {
        let sub = s@.subrange(a as int, b as int);
        if r {
            if dots == 1 {
                assert(sub =~= "."@);
            } else {
                assert(sub =~= ".."@);
            }
        } else {
            if s@[a as int] != '.' {
                assert(sub[0] != "."@[0]);
            } else {
                assert(sub[1] != ".."@[1]);
            }
        }
    }
    r
}

fn span_upto(s: &Vec<char>, n: usize) -> (r: Option<(usize, usize)>)
    requires
        n <= s@.len(),
    ensures
        r matches Some(p) ==> name_span(s@, n as int) == Some((p.0 as int, p.1 as int)),
        r is None ==> name_span(s@, n as int) is None,
    decreases n,
{
    if n == 0 {
        return None;
    }
    if is_separator(s[n - 1]) {
        return span_upto(s, n - 1);
    }
    let st = start_of_component(s, n);
    if st >= n {
        return None;
    }
    if is_dot_component(s, st, n, 1) {
        return span_upto(s, st);
    }
    if is_dot_component(s, st, n, 2) {
        return None;
    }
    Some((st, n))
}

fn dot_before(s: &Vec<char>, a: usize, b: usize) -> (r: Option<usize>)
    requires
        a <= b <= s@.len(),
    ensures
        r matches Some(d) ==> last_dot(s@, a as int, b as int) == Some(d as int),
        r is None ==> last_dot(s@, a as int, b as int) is None,
    decreases b - a,
{
    if b <= a {
        None
    } else if s[b - 1] == '.' {
        Some(b - 1)
    } else {
        dot_before(s, a, b - 1)
    }
}

proof fn lemma_last_dot_range(s: Seq<char>, a: int, b: int)
    ensures
        last_dot(s, a, b) matches Some(d) ==> a <= d < b,
    decreases b - a,
{
    if b > a && s[b - 1] != '.' {
        lemma_last_dot_range(s, a, b - 1);
    }
}

proof fn lemma_name_span_range(s: Seq<char>, n: int)
    requires
        0 <= n <= s.len(),
    ensures
        name_span(s, n) matches Some((a, b)) ==> 0 <= a < b <= n,
    decreases n,
{
    if n > 0 {
        if is_sep(s[n - 1]) {
            lemma_name_span_range(s, n - 1);
        } else {
            lemma_component_start_sep(s, n);
            let st = component_start(s, n);
            if st < n && s.subrange(st, n) == "."@ {
                lemma_name_span_range(s, st);
            }
        }
    }
}

/// Range of the file name in the characters of a path.
pub fn file_name_range(s: &Vec<char>) -> (r: Option<(usize, usize)>)
    ensures
        r matches Some(p) ==> file_name_span(s@) == Some((p.0 as int, p.1 as int)) && p.0 < p.1 <= s@.len(),
        r is None ==> file_name_span(s@) is None,
{
    let r = span_upto(s, s.len());
    proof { lemma_name_span_range(s@, s@.len() as int); }
    r
}

/// Range of the extension in the characters of a path.
pub fn extension_range(s: &Vec<char>) -> (r: Option<(usize, usize)>)
    ensures
        r matches Some(p) ==> extension_span(s@) == Some((p.0 as int, p.1 as int)) && p.0 <= p.1 <= s@.len(),
        r is None ==> extension_span(s@) is None,
{
    match file_name_range(s) {
        Some((a, b)) => {
            proof { lemma_last_dot_range(s@, a as int, b as int); }
            match dot_before(s, a, b) {
                Some(d) => if d == a { None } else { Some((d + 1, b)) },
                None => None,
            }
        },
        None => None,
    }
}

/// The extension of a path.
pub fn extension(path: &str) -> (r: Option<String>)
    ensures
        r matches Some(e) ==> extension_of(path@) == Some(e@),
        r is None ==> extension_of(path@) is None,
{
    let s = chars_of(path);
    match extension_range(&s) {
        Some((a, b)) => Some(string_of(&s.as_slice()[a..b])),
        None => None,
    }
}

/// The path with its extension replaced; see [`with_extension`].
pub fn set_extension(path: &str, ext: &str) -> (r: String)
    ensures
        r@ == with_extension(path@, ext@),
{
    let s = chars_of(path);
    let end = match file_name_range(&s) {
        Some((a, b)) => match extension_range(&s) {
            Some((e, _)) => {
                proof { lemma_last_dot_range(s@, a as int, b as int); }
                e - 1
            },
            None => b,
        },
        None => {
            return string_of(s.as_slice());
        },
    };
    let mut r = string_of(&s.as_slice()[0..end]);
    assert(s@.subrange(0, end as int) =~= s@.take(end as int));
    if !crate::text::text_is_empty(ext) {
        crate::text::push_str(&mut r, ".");
        crate::text::push_str(&mut r, ext);
    }
    r
}

/// Whether a path's extension is `lit`, ignoring ASCII case.
pub open spec fn extension_is(path: Seq<char>, lit: Seq<char>) -> bool {
    match extension_of(path) {
        Some(e) => same_ignoring_ascii_case(encode_utf8(e), encode_utf8(lit)),
        None => false,
    }
}

pub fn extension_equals(path: &str, lit: &str) -> (r: bool)
    ensures
        r == extension_is(path@, lit@),
{
    match extension(path) {
        Some(e) => eq_ignore_case(e.as_str(), lit),
        None => false,
    }
}

} // verus!
