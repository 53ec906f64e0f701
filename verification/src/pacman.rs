//! The package-update block's pure core: its configuration defaults and the
//! count of pending updates in a package manager's report, one update per
//! line, lines marked `[ignored]` not counted.

use vstd::prelude::*;
use vstd::string::StringExecFns;

verus! {

/// Configuration of the package-update block. The interval is in seconds;
/// the format strings are templates for the rendering layer; the regex
/// source, when set, marks updates that make the block critical.
#[derive(Debug, Clone)]
pub struct PacmanConfig {
    pub interval: u64,
    pub format: String,
    pub format_singular: String,
    pub format_up_to_date: String,
    pub critical_updates_regex: Option<String>,
}

impl PacmanConfig {
    /// Ten minutes between refreshes.
    pub fn default_interval() -> (r: u64)
        ensures
            r == 600,
    {
        600
    }

    /// The default display template: just the update count.
    pub fn default_format() -> (r: String)
        ensures
            r@ == "{count}"@,
    {
        String::from_str("{count}")
    }

    /// No update is critical by default.
    pub fn default_critical_updates_regex() -> (r: Option<String>)
        ensures
            r is None,
    {
        None
    }
}

impl Default for PacmanConfig {
    /// The configuration with every field at its default.
    fn default() -> (r: PacmanConfig)
        ensures
            r.interval == 600,
            r.format@ == "{count}"@,
            r.format_singular@ == "{count}"@,
            r.format_up_to_date@ == "{count}"@,
            r.critical_updates_regex is None,
    {
        PacmanConfig {
            interval: PacmanConfig::default_interval(),
            format: PacmanConfig::default_format(),
            format_singular: PacmanConfig::default_format(),
            format_up_to_date: PacmanConfig::default_format(),
            critical_updates_regex: PacmanConfig::default_critical_updates_regex(),
        }
    }
}

/// Index of the first newline in a sequence, or -1 when there is none.
pub open spec fn first_nl(s: Seq<char>) -> int
    decreases s.len(),
{
    if s.len() == 0 {
        -1
    } else if s[0] == '\n' {
        0
    } else {
        let r = first_nl(s.drop_first());
        if r == -1 {
            -1
        } else {
            1 + r
        }
    }
}

/// A scan that stops at the first newline finds `first_nl`.
pub proof fn lemma_first_nl(s: Seq<char>, i: int)
    requires
        0 <= i <= s.len(),
        forall|j: int| 0 <= j < i ==> s[j] != '\n',
        i < s.len() ==> s[i] == '\n',
    ensures
        first_nl(s) == if i < s.len() {
            i
        } else {
            -1
        },
    decreases s.len(),
{
    if s.len() == 0 {
    } else if s[0] == '\n' {
        assert(i == 0);
    } else {
        assert(i >= 1);
        lemma_first_nl(s.drop_first(), i - 1);
    }
}

/// A line with its carriage return stripped, as a newline-terminated line
/// of a report is read.
pub open spec fn strip_cr(l: Seq<char>) -> Seq<char> {
    if l.len() > 0 && l.last() == '\r' {
        l.drop_last()
    } else {
        l
    }
}

/// The marker of a line that does not count.
pub open spec fn ignored_pat() -> Seq<char> {
    seq!['[', 'i', 'g', 'n', 'o', 'r', 'e', 'd', ']']
}

/// Whether the marker occurs anywhere in a line.
pub open spec fn has_ignored(l: Seq<char>) -> bool {
    exists|i: int| 0 <= i && i + 9 <= l.len() && #[trigger] l.subrange(i, i + 9) == ignored_pat()
}

/// The number of lines of the report that do not carry the marker. Lines
/// end at newlines (a carriage return before one is stripped); a final
/// segment without a newline is a line; a trailing newline does not open
/// an empty last line.
pub open spec fn valid_count(s: Seq<char>) -> int
    decreases s.len(),
{
    if s.len() == 0 {
        0
    } else {
        let i = first_nl(s);
        if 0 <= i && i < s.len() {
            (if has_ignored(strip_cr(s.take(i))) {
                0int
            } else {
                1int
            }) + valid_count(s.skip(i + 1))
        } else {
            if has_ignored(s) {
                0int
            } else {
                1int
            }
        }
    }
}

/// Whether the marker occurs in `cs[from..to]`.
fn contains_ignored(cs: &Vec<char>, from: usize, to: usize) -> (r: bool)
    requires
        from <= to <= cs@.len(),
    ensures
        r == has_ignored(cs@.subrange(from as int, to as int)),
{
    let ghost l = cs@.subrange(from as int, to as int);
    if to - from < 9 {
        return false;
    }
    let mut i: usize = from;
    while i <= to - 9
        invariant
            from <= i,
            i <= to - 8,
            from <= to <= cs@.len(),
            l == cs@.subrange(from as int, to as int),
            to - from >= 9,
            forall|q: int|
                0 <= q < i - from ==> #[trigger] l.subrange(q, q + 9) != ignored_pat(),
        decreases to - i,
    {
        let hit = cs[i] == '[' && cs[i + 1] == 'i' && cs[i + 2] == 'g' && cs[i + 3] == 'n' && cs[i
            + 4] == 'o' && cs[i + 5] == 'r' && cs[i + 6] == 'e' && cs[i + 7] == 'd' && cs[i + 8]
            == ']';
        let ghost q0 = i - from;
        if hit {
            proof {
                assert(l.subrange(q0, q0 + 9) =~= ignored_pat());
            }
            return true;
        }
        proof {
            if l.subrange(q0, q0 + 9) == ignored_pat() {
                assert(forall|k: int|
                    0 <= k < 9 ==> l.subrange(q0, q0 + 9)[k] == #[trigger] ignored_pat()[k]);
                assert(forall|k: int| 0 <= k < 9 ==> #[trigger] l[q0 + k] == cs@[i + k]);
                assert(false);
            }
        }
        i += 1;
    }
    false
}

/// Count the pending updates in a report: its lines that do not carry the
/// `[ignored]` marker.
#[verifier::loop_isolation(false)]
pub fn get_update_count(updates: &str) -> (r: usize)
    ensures
        r as int == valid_count(updates@),
{
    let cs = crate::text::to_chars(updates);
    let n = cs.len();
    let mut cnt: usize = 0;
    let mut pos: usize = 0;
    proof {
        assert(updates@.skip(0) =~= updates@);
    }
    while pos < n
        invariant
            n == cs@.len(),
            cs@ == updates@,
            0 <= pos <= n,
            cnt <= pos,
            valid_count(updates@) == cnt + valid_count(updates@.skip(pos as int)),
        decreases n - pos,
    {
        let ghost rest = updates@.skip(pos as int);
        // find the next newline
        let mut nl: usize = n;
        let mut k: usize = pos;
        while k < n
            invariant
                pos <= k <= n,
                n == cs@.len(),
                cs@ == updates@,
                nl == n || (pos <= nl && nl < k && updates@[nl as int] == '\n'),
                forall|j: int| pos <= j < k && j < nl ==> updates@[j] != '\n',
            decreases n - k,
        {
            if nl == n && cs[k] == '\n' {
                nl = k;
            }
            k += 1;
        }
        proof {
            assert(rest.len() == n - pos);
            assert(forall|j: int| 0 <= j < rest.len() ==> rest[j] == updates@[j + pos]);
            lemma_first_nl(rest, nl - pos);
        }
        // the line body, with a carriage return before the newline stripped
        let line_end: usize = if nl < n && nl > pos && cs[nl - 1] == '\r' {
            nl - 1
        } else {
            nl
        };
        let found = contains_ignored(&cs, pos, line_end);
        proof {
            if nl < n {
                assert(strip_cr(rest.take(nl - pos)) =~= updates@.subrange(
                    pos as int,
                    line_end as int,
                ));
            } else {
                assert(rest =~= updates@.subrange(pos as int, line_end as int));
            }
        }
        if !found {
            cnt += 1;
        }
        if nl < n {
            proof {
                assert(rest.skip(nl - pos + 1) =~= updates@.skip(nl + 1));
            }
            pos = nl + 1;
        } else {
            proof {
                assert(updates@.skip(n as int) =~= Seq::<char>::empty());
            }
            pos = n;
        }
    }
    proof {
        assert(updates@.skip(pos as int) =~= Seq::<char>::empty());
    }
    cnt
}

} // verus!
