//! Choosing the IDE installation to work on.
use vstd::prelude::*;
use crate::document::SyncError;
use crate::text::{views, has_prefix, starts_with_text, last_segment, name_from_path, trimmed, trim_text};
use vstd::string::StrSliceExecFns;

verus! {

/// What the name of every installation directory begins with.
pub const AS_INSTALLATION_FOLDER_PREFIX: &'static str = "AndroidStudio";

/// The entries that are installation directories (those whose own name
/// begins with the prefix), in their order.
pub open spec fn installations_in(entries: Seq<Seq<char>>) -> Seq<Seq<char>>
    decreases entries.len(),
{
    if entries.len() == 0 {
        Seq::empty()
    } else {
        let rest = installations_in(entries.drop_last());
        if has_prefix(last_segment(entries.last()), AS_INSTALLATION_FOLDER_PREFIX@) {
            rest.push(entries.last())
        } else {
            rest
        }
    }
}

/// The installation directories among the entries of the vendor's
/// configuration directory, in the order they were listed.
pub fn installation_folders(entries: &Vec<String>) -> (r: Vec<String>)
    ensures
        views(r@) == installations_in(views(entries@)),
{
    let ghost es = views(entries@);
    let mut found: Vec<String> = Vec::new();
    let mut i: usize = 0;
    while i < entries.len()
        invariant
            i <= entries@.len(),
            es == views(entries@),
            views(found@) == installations_in(es.subrange(0, i as int)),
        decreases entries@.len() - i,
    {
        let ghost before = found@;
        assert(es.subrange(0, i + 1).drop_last() =~= es.subrange(0, i as int));
        assert(es.subrange(0, i + 1).last() == entries@[i as int]@);
        if starts_with_text(name_from_path(entries[i].as_str()), AS_INSTALLATION_FOLDER_PREFIX) {
            found.push(entries[i].clone());
            assert(views(found@) =~= views(before).push(entries@[i as int]@));
        }
        i += 1;
    }
    assert(es.subrange(0, i as int) =~= es);
    found
}

/// The installation to use without asking, where there is exactly one:
/// an error where there is none, and `None` where the operator must choose.
pub fn sole_installation(candidates: &Vec<String>) -> (r: Result<Option<String>, SyncError>)
    ensures
        candidates@.len() == 0 <==> r is Err,
        r matches Err(e) ==> e == SyncError::NoInstallation,
        candidates@.len() == 1 ==> (r matches Ok(Some(p)) && p@ == candidates@[0]@),
        candidates@.len() > 1 ==> r matches Ok(None),
{
    if candidates.len() == 0 {
        Err(SyncError::NoInstallation)
    } else if candidates.len() == 1 {
        Ok(Some(candidates[0].clone()))
    } else {
        Ok(None)
    }
}

/// The number that a string of decimal digits writes.
pub open spec fn decimal_value(s: Seq<char>) -> int
    decreases s.len(),
{
    if s.len() == 0 {
        0
    } else {
        decimal_value(s.drop_last()) * 10 + (s.last() as int - '0' as int)
    }
}

pub open spec fn all_digits(s: Seq<char>) -> bool {
    forall|i: int| 0 <= i < s.len() ==> '0' <= #[trigger] s[i] <= '9'
}

/// The digits of a number, without the `+` that may stand in front.
pub open spec fn unsigned_digits(s: Seq<char>) -> Seq<char> {
    if s.len() > 0 && s[0] == '+' {
        s.drop_first()
    } else {
        s
    }
}

/// The number that `s` writes in decimal, with an optional leading `+`,
/// where it fits a `usize`.
pub open spec fn index_value(s: Seq<char>) -> Option<int> {
    let d = unsigned_digits(s);
    if d.len() > 0 && all_digits(d) && decimal_value(d) <= usize::MAX {
        Some(decimal_value(d))
    } else {
        None
    }
}

proof fn lemma_decimal_grows(s: Seq<char>, k: int)
    requires
        0 <= k <= s.len(),
        all_digits(s),
    ensures
        decimal_value(s) >= decimal_value(s.subrange(0, k)) >= 0,
    decreases s.len(),
{
    if s.len() > 0 {
        assert(all_digits(s.drop_last()));
        if k < s.len() {
            lemma_decimal_grows(s.drop_last(), k);
            assert(s.drop_last().subrange(0, k) =~= s.subrange(0, k));
        } else {
            lemma_decimal_grows(s.drop_last(), k - 1);
            assert(s.subrange(0, k) =~= s);
        }
    } else {
        assert(s.subrange(0, k) =~= s);
    }
}

/// Reads a decimal number from `s`; `None` where `s` is not one or the
/// number does not fit.
pub fn parse_index(s: &str) -> (r: Option<usize>)
    ensures
        r matches Some(v) ==> index_value(s@) == Some(v as int),
        r is None ==> index_value(s@) is None,
{
    let n = s.unicode_len();
    let mut start: usize = 0;
    if n > 0 && s.get_char(0) == '+' {
        start = 1;
    }
    let ghost d = unsigned_digits(s@);
    assert(d =~= s@.subrange(start as int, n as int));
    if start == n {
        return None;
    }
    let mut value: usize = 0;
    let mut i: usize = start;
    while i < n
        invariant
            start <= i <= n,
            n == s@.len(),
            d == s@.subrange(start as int, n as int),
            d == unsigned_digits(s@),
            all_digits(d.subrange(0, i - start)),
            value as int == decimal_value(d.subrange(0, i - start)),
        decreases n - i,
    {
        let c = s.get_char(i);
        assert(d[i - start] == c);
        let ghost p = d.subrange(0, i - start + 1);
        assert(p.drop_last() =~= d.subrange(0, i - start));
        if c < '0' || c > '9' {
            assert(!('0' <= d[i - start] <= '9'));
            assert(!all_digits(d));
            return None;
        }
        let digit = (c as u32 - '0' as u32) as usize;
        assert(all_digits(p));
        let next = match value.checked_mul(10) {
            Some(t) => t.checked_add(digit),
            None => None,
        };
        match next {
            Some(v) => {
                value = v;
            },
            None => {
                proof {
                    assert(decimal_value(p) == value * 10 + digit);
                    if all_digits(d) {
                        lemma_decimal_grows(d, i - start + 1);
                    }
                }
                return None;
            },
        }
        i += 1;
    }
    assert(d.subrange(0, i - start) =~= d);
    Some(value)
}

/// The 1-based position of the installation that the operator's input
/// names, where it names one in the list.
pub open spec fn chosen_position(input: Seq<char>, count: int) -> Option<int> {
    match index_value(trimmed(input)) {
        Some(v) => if 1 <= v <= count { Some(v) } else { None },
        None => None,
    }
}

/// The installation that the operator chose by typing its 1-based number;
/// an error where the input is no number, or a number outside the list.
pub fn choose_installation(candidates: &Vec<String>, input: &str) -> (r: Result<String, SyncError>)
    ensures
        r is Err <==> chosen_position(input@, candidates@.len() as int) is None,
        r == Err::<String, SyncError>(SyncError::InvalidSelection) <==> index_value(trimmed(input@)) is None,
        r matches Err(e) ==> e == SyncError::InvalidSelection || e == SyncError::SelectionOutOfRange,
        r matches Ok(p) ==> p@ == candidates@[chosen_position(input@, candidates@.len() as int)->Some_0 - 1]@,
{
    match parse_index(trim_text(input)) {
        Some(i) => {
            if i >= 1 && i <= candidates.len() {
                Ok(candidates[i - 1].clone())
            } else {
                Err(SyncError::SelectionOutOfRange)
            }
        },
        None => Err(SyncError::InvalidSelection),
    }
}

} // verus!
