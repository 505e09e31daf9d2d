//! Choosing the execution backend from its textual name.

use vstd::prelude::*;
use vstd::string::{StrSliceExecFns, StringExecFns};

verus! {

/// Execution backend of a simulation.
#[derive(Clone, Copy, Debug, PartialEq, Eq)]
pub enum RuntimeKind {
    /// Multithreaded CPU runtime.
    Cpu,
    /// GPU-accelerated runtime.
    Gpu,
}

/// `c` has the Unicode property White_Space.
pub open spec fn is_white_space(c: char) -> bool {
    let u = c as u32;
    (0x9 <= u <= 0xd) || u == 0x20 || u == 0x85 || u == 0xa0 || u == 0x1680 || (0x2000 <= u <= 0x200a)
        || u == 0x2028 || u == 0x2029 || u == 0x202f || u == 0x205f || u == 0x3000
}

/// Number of white-space characters at the front of `s`.
pub open spec fn leading_white_space(s: Seq<char>) -> nat
    decreases s.len(),
{
    if s.len() > 0 && is_white_space(s[0]) {
        1 + leading_white_space(s.drop_first())
    } else {
        0
    }
}

/// Number of white-space characters at the back of `s`.
pub open spec fn trailing_white_space(s: Seq<char>) -> nat
    decreases s.len(),
{
    if s.len() > 0 && is_white_space(s.last()) {
        1 + trailing_white_space(s.drop_last())
    } else {
        0
    }
}

/// `s` without its leading and trailing white space.
pub open spec fn trim_spec(s: Seq<char>) -> Seq<char> {
    let t = s.skip(leading_white_space(s) as int);
    t.take(t.len() - trailing_white_space(t))
}

/// `c` with an ASCII capital letter replaced by its small letter.
pub open spec fn ascii_lowercase(c: char) -> char {
    if 'A' <= c <= 'Z' {
        ((c as u32) + 32) as char
    } else {
        c
    }
}

/// The name `s` stands for: its trimmed, lower-cased text is `cpu` or `gpu`.
pub open spec fn runtime_kind_of(s: Seq<char>) -> Option<RuntimeKind> {
    let t = trim_spec(s).map_values(|c: char| ascii_lowercase(c));
    if t == seq!['c', 'p', 'u'] {
        Some(RuntimeKind::Cpu)
    } else if t == seq!['g', 'p', 'u'] {
        Some(RuntimeKind::Gpu)
    } else {
        None
    }
}

fn is_white_space_char(c: char) -> (r: bool)
    ensures
        r == is_white_space(c),
{
    let u = c as u32;
    (0x9 <= u && u <= 0xd) || u == 0x20 || u == 0x85 || u == 0xa0 || u == 0x1680 || (0x2000 <= u && u <= 0x200a)
        || u == 0x2028 || u == 0x2029 || u == 0x202f || u == 0x205f || u == 0x3000
}

/// `c` equals the small letter `lower` once lower-cased.
fn lowers_to(c: char, lower: char, upper: char) -> (r: bool)
    requires
        'a' <= lower <= 'z',
        upper as u32 + 32 == lower as u32,
    ensures
        r == (ascii_lowercase(c) == lower),
{
    c == lower || c == upper
}

/// Start and end (in characters) of `s` without its surrounding white space.
fn trimmed_bounds(s: &str) -> (r: (usize, usize))
    ensures
        r.0 <= r.1 <= s@.len(),
        s@.subrange(r.0 as int, r.1 as int) == trim_spec(s@),
{
    let n = s.unicode_len();
    let mut lead: usize = 0;
    assert(s@.skip(0) =~= s@);
    while lead < n && is_white_space_char(s.get_char(lead))
        invariant
            n == s@.len(),
            lead <= n,
            leading_white_space(s@) == lead + leading_white_space(s@.skip(lead as int)),
        decreases n - lead,
    {
        assert(s@.skip(lead as int).drop_first() =~= s@.skip(lead + 1));
        lead = lead + 1;
    }
    let ghost t = s@.skip(lead as int);
    let mut end: usize = n;
    assert(s@.subrange(lead as int, n as int) =~= t);
    while end > lead && is_white_space_char(s.get_char(end - 1))
        invariant
            n == s@.len(),
            t == s@.skip(lead as int),
            lead <= end <= n,
            trailing_white_space(t) == (n - end) + trailing_white_space(s@.subrange(lead as int, end as int)),
        decreases end,
    {
        assert(s@.subrange(lead as int, end as int).drop_last() =~= s@.subrange(lead as int, end - 1));
        end = end - 1;
    }
    assert(leading_white_space(s@) == lead);
    assert(t.take(end - lead) =~= s@.subrange(lead as int, end as int));
    (lead, end)
}

/// Reads an execution backend name: `cpu` or `gpu`, in any ASCII letter
/// case, with any surrounding white space. Anything else is refused with the
/// message `invalid runtime '<s>', expected 'cpu' or 'gpu'`.
pub fn parse_runtime(s: &str) -> (r: Result<RuntimeKind, String>)
    ensures
        runtime_kind_of(s@) matches Some(k) ==> r == Ok::<RuntimeKind, String>(k),
        runtime_kind_of(s@) is None ==> (r matches Err(e) && e@ == "invalid runtime '"@ + s@ + "', expected 'cpu' or 'gpu'"@),
{
    let (start, end) = trimmed_bounds(s);
    let ghost t = trim_spec(s@).map_values(|c: char| ascii_lowercase(c));
    if end - start == 3 {
        let c0 = s.get_char(start);
        let c1 = s.get_char(start + 1);
        let c2 = s.get_char(start + 2);
        let pu = lowers_to(c1, 'p', 'P') && lowers_to(c2, 'u', 'U');
        if lowers_to(c0, 'c', 'C') && pu {
            assert(t =~= seq!['c', 'p', 'u']);
            return Ok(RuntimeKind::Cpu);
        }
        if lowers_to(c0, 'g', 'G') && pu {
            assert(t =~= seq!['g', 'p', 'u']);
            return Ok(RuntimeKind::Gpu);
        }
        assert(t[0] == ascii_lowercase(c0) && t[1] == ascii_lowercase(c1) && t[2] == ascii_lowercase(c2));
    } else {
        assert(t.len() != 3);
    }
    let mut message = String::from_str("invalid runtime '");
    message.append(s);
    message.append("', expected 'cpu' or 'gpu'");
    Err(message)
}

impl RuntimeKind {
    /// The canonical (lower-case) name of the backend.
    pub fn name(&self) -> (r: &'static str)
        ensures
            self == RuntimeKind::Cpu ==> r@ == "cpu"@,
            self == RuntimeKind::Gpu ==> r@ == "gpu"@,
    {
        match self {
            RuntimeKind::Cpu => "cpu",
            RuntimeKind::Gpu => "gpu",
        }
    }
}

/// The characters for which `char::is_whitespace` holds, by code point:
/// U+0009 to U+000D, U+0020, U+0085, U+00A0, U+1680, U+2000 to U+200A,
/// U+2028, U+2029, U+202F, U+205F and U+3000.
pub open spec fn white_space_code_point(c: char) -> bool {
    ||| c == '\u{9}' || c == '\u{a}' || c == '\u{b}' || c == '\u{c}' || c == '\u{d}'
    ||| c == '\u{20}' || c == '\u{85}' || c == '\u{a0}' || c == '\u{1680}'
    ||| c == '\u{2000}' || c == '\u{2001}' || c == '\u{2002}' || c == '\u{2003}' || c == '\u{2004}'
    ||| c == '\u{2005}' || c == '\u{2006}' || c == '\u{2007}' || c == '\u{2008}' || c == '\u{2009}'
    ||| c == '\u{200a}' || c == '\u{2028}' || c == '\u{2029}' || c == '\u{202f}' || c == '\u{205f}'
    ||| c == '\u{3000}'
}

proof fn lemma_leading_white_space_bound(s: Seq<char>)
    ensures
        leading_white_space(s) <= s.len(),
    decreases s.len(),
{
    if s.len() > 0 && is_white_space(s[0]) {
        lemma_leading_white_space_bound(s.drop_first());
    }
}

proof fn lemma_trailing_white_space_bound(s: Seq<char>)
    ensures
        trailing_white_space(s) <= s.len(),
    decreases s.len(),
{
    if s.len() > 0 && is_white_space(s.last()) {
        lemma_trailing_white_space_bound(s.drop_last());
    }
}

proof fn lemma_trim_len(s: Seq<char>)
    ensures
        trim_spec(s).len() == s.len() - leading_white_space(s) - trailing_white_space(s.skip(leading_white_space(s) as int)),
        is_white_space(s[0]) && s.len() > 0 ==> trim_spec(s).len() < s.len(),
        is_white_space(s.last()) && s.len() > 0 ==> trim_spec(s).len() < s.len(),
        s.len() > 0 && !is_white_space(s[0]) && !is_white_space(s.last()) ==> trim_spec(s) == s,
{
    lemma_leading_white_space_bound(s);
    let l = leading_white_space(s);
    let t = s.skip(l as int);
    lemma_trailing_white_space_bound(t);
    if s.len() > 0 && !is_white_space(s[0]) {
        assert(l == 0);
        assert(t =~= s);
        if is_white_space(s.last()) {
            assert(trailing_white_space(t) >= 1);
        } else {
            assert(trailing_white_space(t) == 0);
            assert(t.take(t.len() as int) =~= t);
        }
    }
}

/// Adding one white-space character in front does not change the trimmed text.
proof fn lemma_trim_prepend(s: Seq<char>, c: char)
    requires
        is_white_space(c),
    ensures
        trim_spec(seq![c] + s) == trim_spec(s),
{
    let u = seq![c] + s;
    assert(u.drop_first() =~= s);
    assert(leading_white_space(u) == 1 + leading_white_space(s));
    lemma_leading_white_space_bound(s);
    assert(u.skip(leading_white_space(u) as int) =~= s.skip(leading_white_space(s) as int));
}

proof fn lemma_leading_push(s: Seq<char>, c: char)
    ensures
        leading_white_space(s) < s.len() ==> leading_white_space(s.push(c)) == leading_white_space(s),
        leading_white_space(s) >= s.len() && is_white_space(c) ==> leading_white_space(s.push(c)) == s.len() + 1,
    decreases s.len(),
{
    let u = s.push(c);
    if s.len() == 0 {
        assert(u[0] == c);
        assert(u.drop_first() =~= Seq::<char>::empty());
        assert(leading_white_space(u.drop_first()) == 0);
    } else if is_white_space(s[0]) {
        assert(u[0] == s[0]);
        assert(u.drop_first() =~= s.drop_first().push(c));
        lemma_leading_push(s.drop_first(), c);
    }
}

/// Adding one white-space character at the back does not change the trimmed text.
proof fn lemma_trim_append(s: Seq<char>, c: char)
    requires
        is_white_space(c),
    ensures
        trim_spec(s.push(c)) == trim_spec(s),
{
    let u = s.push(c);
    lemma_leading_white_space_bound(s);
    lemma_leading_push(s, c);
    let l = leading_white_space(s);
    let t = s.skip(l as int);
    lemma_trailing_white_space_bound(t);
    if l < s.len() {
        let t2 = u.skip(l as int);
        assert(t2 =~= t.push(c));
        assert(t2.drop_last() =~= t);
        assert(trailing_white_space(t2) == 1 + trailing_white_space(t));
        assert(t2.take(t2.len() - trailing_white_space(t2)) =~= t.take(t.len() - trailing_white_space(t)));
    } else {
        assert(t.len() == 0);
        assert(trim_spec(s) =~= Seq::<char>::empty());
        assert(u.skip(leading_white_space(u) as int) =~= Seq::<char>::empty());
        assert(trim_spec(u) =~= Seq::<char>::empty());
    }
}

/// White space around a backend name does not change the backend it names:
/// for every text `s` and every white-space character `c` (by the fixed list
/// of `char::is_whitespace` code points), `s` followed by `c` and `c`
/// followed by `s` name the same backend as `s`, or none if `s` names none.
pub proof fn lemma_surrounding_white_space_is_ignored(s: Seq<char>, c: char)
    requires
        white_space_code_point(c),
    ensures
        runtime_kind_of(s.push(c)) == runtime_kind_of(s),
        runtime_kind_of(seq![c] + s) == runtime_kind_of(s),
{
    assert(is_white_space(c));
    lemma_trim_append(s, c);
    lemma_trim_prepend(s, c);
}

/// A name of three characters is read letter by letter, in either case: it
/// names the CPU backend exactly when it is `c`/`C`, `p`/`P`, `u`/`U`, and
/// the GPU backend exactly when it is `g`/`G`, `p`/`P`, `u`/`U`.
pub proof fn lemma_backend_names_ignore_letter_case(s: Seq<char>)
    requires
        s.len() == 3,
    ensures
        (runtime_kind_of(s) == Some(RuntimeKind::Cpu))
            == ((s[0] == 'c' || s[0] == 'C') && (s[1] == 'p' || s[1] == 'P') && (s[2] == 'u' || s[2] == 'U')),
        (runtime_kind_of(s) == Some(RuntimeKind::Gpu))
            == ((s[0] == 'g' || s[0] == 'G') && (s[1] == 'p' || s[1] == 'P') && (s[2] == 'u' || s[2] == 'U')),
{
    lemma_trim_len(s);
    let t = trim_spec(s).map_values(|c: char| ascii_lowercase(c));
    if !is_white_space(s[0]) && !is_white_space(s[2]) {
        assert(s.last() == s[2]);
        assert(trim_spec(s) == s);
        assert(t.len() == 3);
        assert(t[0] == ascii_lowercase(s[0]) && t[1] == ascii_lowercase(s[1]) && t[2] == ascii_lowercase(s[2]));
        if t =~= seq!['c', 'p', 'u'] {
            assert(runtime_kind_of(s) == Some(RuntimeKind::Cpu));
        } else if t =~= seq!['g', 'p', 'u'] {
            assert(runtime_kind_of(s) == Some(RuntimeKind::Gpu));
        } else {
            assert(runtime_kind_of(s) is None);
        }
    } else {
        assert(s.last() == s[2]);
        assert(t.len() < 3);
        assert(t != seq!['c', 'p', 'u']);
        assert(t != seq!['g', 'p', 'u']);
    }
}

} // verus!
