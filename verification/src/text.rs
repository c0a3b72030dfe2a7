//! Character-level text utilities: whitespace trimming, splitting at the
//! first NUL separator, and best-effort process-name resolution from the
//! two per-process text records.

use vstd::prelude::*;
use vstd::string::StrSliceExecFns;
use vstd::string::StringExecFns;

verus! {

/// The Unicode white-space code points, the set that `str::trim` removes.
pub open spec fn is_ws_char(c: char) -> bool {
    let n = c as int;
    ||| n == 0x09
    ||| n == 0x0a
    ||| n == 0x0b
    ||| n == 0x0c
    ||| n == 0x0d
    ||| n == 0x20
    ||| n == 0x85
    ||| n == 0xa0
    ||| n == 0x1680
    ||| (0x2000 <= n && n <= 0x200a)
    ||| n == 0x2028
    ||| n == 0x2029
    ||| n == 0x202f
    ||| n == 0x205f
    ||| n == 0x3000
}

/// Drops white-space characters from the front of `s`.
pub open spec fn trim_front(s: Seq<char>) -> Seq<char>
    decreases s.len(),
{
    if s.len() > 0 && is_ws_char(s[0]) {
        trim_front(s.drop_first())
    } else {
        s
    }
}

/// Drops white-space characters from the back of `s`.
pub open spec fn trim_back(s: Seq<char>) -> Seq<char>
    decreases s.len(),
{
    if s.len() > 0 && is_ws_char(s.last()) {
        trim_back(s.drop_last())
    } else {
        s
    }
}

/// `s` with white space removed from both ends.
pub open spec fn trimmed(s: Seq<char>) -> Seq<char> {
    trim_back(trim_front(s))
}

/// The index of the first NUL character in `s`, or `s.len()` if there is none.
pub open spec fn nul_index(s: Seq<char>) -> int
    decreases s.len(),
{
    if s.len() == 0 {
        0
    } else if s[0] == '\0' {
        0
    } else {
        1 + nul_index(s.drop_first())
    }
}

/// The prefix of `s` up to (excluding) the first NUL character.
pub open spec fn first_segment(s: Seq<char>) -> Seq<char> {
    s.subrange(0, nul_index(s))
}

/// The view of an optional borrowed string.
pub open spec fn opt_view(o: Option<&str>) -> Option<Seq<char>> {
    match o {
        Some(s) => Some(s@),
        None => None,
    }
}

/// Whether the command-line record decides the name: it is present,
/// non-empty, and its first NUL-delimited segment trims to something.
pub open spec fn cmdline_yields(cmdline: Option<Seq<char>>) -> bool {
    cmdline is Some && cmdline->0.len() > 0 && trimmed(first_segment(cmdline->0)).len() > 0
}

/// Whether the short-name record decides the name: it is present and
/// trims to something.
pub open spec fn comm_yields(comm: Option<Seq<char>>) -> bool {
    comm is Some && trimmed(comm->0).len() > 0
}

/// The name the resolver owes for a process, given the contents of its
/// command-line record and its short-name record (`None` where the record
/// could not be read): the first NUL-delimited segment of a non-empty
/// command line, trimmed, if that is non-empty; otherwise the trimmed
/// short name, if that is non-empty; otherwise the literal `"Unknown"`.
pub open spec fn resolved_name(cmdline: Option<Seq<char>>, comm: Option<Seq<char>>) -> Seq<char> {
    if cmdline_yields(cmdline) {
        trimmed(first_segment(cmdline->0))
    } else if comm_yields(comm) {
        trimmed(comm->0)
    } else {
        "Unknown"@
    }
}

proof fn lemma_trim_front_skip(s: Seq<char>, i: int)
    requires
        0 <= i <= s.len(),
        forall|k: int| 0 <= k < i ==> is_ws_char(s[k]),
    ensures
        trim_front(s) == trim_front(s.subrange(i, s.len() as int)),
    decreases i,
{
    if i == 0 {
        assert(s.subrange(0, s.len() as int) =~= s);
    } else {
        let t = s.drop_first();
        assert(forall|k: int| 0 <= k < i - 1 ==> is_ws_char(t[k]));
        lemma_trim_front_skip(t, i - 1);
        assert(t.subrange(i - 1, t.len() as int) =~= s.subrange(i, s.len() as int));
    }
}

proof fn lemma_trim_back_skip(s: Seq<char>, m: int)
    requires
        0 <= m <= s.len(),
        forall|k: int| m <= k < s.len() ==> is_ws_char(s[k]),
    ensures
        trim_back(s) == trim_back(s.subrange(0, m)),
    decreases s.len() - m,
{
    if m == s.len() {
        assert(s.subrange(0, s.len() as int) =~= s);
    } else {
        let t = s.drop_last();
        assert(is_ws_char(s.last()));
        assert(forall|k: int| m <= k < t.len() ==> is_ws_char(t[k]));
        lemma_trim_back_skip(t, m);
        assert(t.subrange(0, m) =~= s.subrange(0, m));
    }
}

/// Returns `s` with leading and trailing white space removed,
/// the way `trimmed` describes it.
pub fn trim_str<'a>(s: &'a str) -> (r: &'a str)
    ensures
        r@ == trimmed(s@),
{
    let n = s.unicode_len();
    let mut i: usize = 0;
    while i < n && is_ws(s.get_char(i))
        invariant
            0 <= i <= n,
            n == s@.len(),
            forall|k: int| 0 <= k < i ==> is_ws_char(s@[k]),
        decreases n - i,
    {
        i += 1;
    }
    let mut j: usize = n;
    while j > i && is_ws(s.get_char(j - 1))
        invariant
            i <= j <= n,
            n == s@.len(),
            forall|k: int| 0 <= k < i ==> is_ws_char(s@[k]),
            i == n || !is_ws_char(s@[i as int]),
            forall|k: int| j <= k < n ==> is_ws_char(s@[k]),
        decreases j,
    {
        j -= 1;
    }
    proof {
        lemma_trim_front_skip(s@, i as int);
        let t = s@.subrange(i as int, n as int);
        assert(trim_front(s@) == t);
        assert(forall|k: int| j - i <= k < t.len() ==> is_ws_char(t[k]));
        lemma_trim_back_skip(t, j - i);
        assert(t.subrange(0, j - i) =~= s@.subrange(i as int, j as int));
        assert(trim_back(t.subrange(0, j - i)) == t.subrange(0, j - i));
    }
    s.substring_char(i, j)
}

proof fn lemma_nul_index_at(s: Seq<char>, i: int)
    requires
        0 <= i <= s.len(),
        forall|k: int| 0 <= k < i ==> s[k] != '\0',
        i == s.len() || s[i] == '\0',
    ensures
        nul_index(s) == i,
    decreases i,
{
    if s.len() == 0 {
    } else if i == 0 {
    } else {
        let t = s.drop_first();
        assert(forall|k: int| 0 <= k < i - 1 ==> t[k] != '\0');
        lemma_nul_index_at(t, i - 1);
    }
}

/// Returns the prefix of `s` up to (excluding) its first NUL character,
/// or all of `s` if it holds none.
pub fn first_nul_segment<'a>(s: &'a str) -> (r: &'a str)
    ensures
        r@ == first_segment(s@),
{
    let n = s.unicode_len();
    let mut i: usize = 0;
    while i < n && s.get_char(i) != '\0'
        invariant
            0 <= i <= n,
            n == s@.len(),
            forall|k: int| 0 <= k < i ==> s@[k] != '\0',
        decreases n - i,
    {
        i += 1;
    }
    proof {
        lemma_nul_index_at(s@, i as int);
    }
    s.substring_char(0, i)
}

/// Whether `c` is a white-space character, per `is_ws_char`.
fn is_ws(c: char) -> (r: bool)
    ensures
        r == is_ws_char(c),
{
    let n = c as u32;
    n == 0x09 || n == 0x0a || n == 0x0b || n == 0x0c || n == 0x0d || n == 0x20 || n == 0x85
        || n == 0xa0 || n == 0x1680 || (0x2000 <= n && n <= 0x200a) || n == 0x2028 || n == 0x2029
        || n == 0x202f || n == 0x205f || n == 0x3000
}

/// Resolves a display name for a process from the contents of its
/// command-line record and its short-name record, each `None` where the
/// record was absent or unreadable. The result is never empty.
pub fn resolve_process_name(cmdline: Option<&str>, comm: Option<&str>) -> (r: String)
    ensures
        r@ == resolved_name(opt_view(cmdline), opt_view(comm)),
        r@.len() > 0,
        cmdline_yields(opt_view(cmdline)) ==> r@ == trimmed(first_segment(opt_view(cmdline)->0)),
        !cmdline_yields(opt_view(cmdline)) && comm_yields(opt_view(comm)) ==> r@ == trimmed(
            opt_view(comm)->0,
        ),
        !cmdline_yields(opt_view(cmdline)) && !comm_yields(opt_view(comm)) ==> r@ == "Unknown"@,
{
    if let Some(c) = cmdline {
        if c.unicode_len() > 0 {
            let seg = first_nul_segment(c);
            let t = trim_str(seg);
            if t.unicode_len() > 0 {
                return String::from_str(t);
            }
        }
    }
    if let Some(m) = comm {
        let t = trim_str(m);
        if t.unicode_len() > 0 {
            return String::from_str(t);
        }
    }
    proof {
        reveal_strlit("Unknown");
    }
    String::from_str("Unknown")
}

} // verus!
