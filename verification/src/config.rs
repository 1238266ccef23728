//! The configured target list and target normalization.
//!
//! A target is a plain string naming either a bare host/IP or an HTTP(S)
//! URL. Configuration entries are trimmed before use and empty entries are
//! silently dropped; classification of the surviving strings happens in
//! [`crate::probe`].

use vstd::prelude::*;

verus! {

/// What `str::trim` returns: the input without leading and trailing
/// whitespace. Left abstract; the facts callers rely on are stated at the
/// call in [`trim_str`].
pub uninterp spec fn trim_of(s: Seq<char>) -> Seq<char>;

/// Relies on `str::trim`: it returns a subslice of the input with leading and
/// trailing whitespace removed, so it depends on the input characters alone,
/// never grows the string, and maps the empty string to itself.
#[verifier::external_body]
fn trim_str(s: &str) -> (r: &str)
    ensures
        r@ == trim_of(s@),
        r@.len() <= s@.len(),
        s@.len() == 0 ==> r@.len() == 0,
{
    s.trim()
}

/// The persisted configuration: an ordered list of monitored targets.
pub struct AppConfig {
    pub targets: Vec<String>,
}

impl AppConfig {
    /// The built-in fallback used whenever no configuration can be loaded.
    pub fn default() -> (r: Self)
        ensures
            r.targets@.len() == 2,
            r.targets@[0]@ == "google.com"@,
            r.targets@[1]@ == "1.1.1.1"@,
    {
        let mut targets: Vec<String> = Vec::new();
        targets.push(String::from_str("google.com"));
        targets.push(String::from_str("1.1.1.1"));
        AppConfig { targets }
    }
}

/// Trims a raw configuration entry; an entry that is empty after trimming is
/// rejected.
pub fn normalize_target(raw: &str) -> (r: Option<String>)
    ensures
        r is Some <==> trim_of(raw@).len() > 0,
        r is Some ==> r.unwrap()@ == trim_of(raw@),
{
    let trimmed = trim_str(raw);
    if trimmed.is_empty() {
        None
    } else {
        Some(String::from_str(trimmed))
    }
}

/// The trimmed survivors of a raw target list, in order: entries that are
/// empty after trimming are dropped.
pub open spec fn normalized_list(ts: Seq<String>) -> Seq<Seq<char>>
    decreases ts.len(),
{
    if ts.len() == 0 {
        Seq::empty()
    } else {
        let rest = normalized_list(ts.drop_last());
        if trim_of(ts.last()@).len() > 0 {
            rest.push(trim_of(ts.last()@))
        } else {
            rest
        }
    }
}

/// Normalizes a configured target list for one cycle: trims every entry and
/// silently drops those left empty, keeping the configured order.
pub fn normalize_targets(raw: &Vec<String>) -> (r: Vec<String>)
    ensures
        r@.map_values(|s: String| s@) == normalized_list(raw@),
{
    let mut out: Vec<String> = Vec::new();
    proof {
        assert(out@.map_values(|s: String| s@) =~= normalized_list(raw@.take(0)));
    }
    let mut i: usize = 0;
    while i < raw.len()
        invariant
            i <= raw@.len(),
            out@.map_values(|s: String| s@) == normalized_list(raw@.take(i as int)),
        decreases raw@.len() - i,
    {
        proof {
            assert(raw@.take(i as int + 1).drop_last() =~= raw@.take(i as int));
            assert(raw@.take(i as int + 1).last() == raw@[i as int]);
        }
        match normalize_target(raw[i].as_str()) {
            Option::Some(t) => {
                out.push(t);
                proof {
                    assert(out@.map_values(|s: String| s@) =~= normalized_list(
                        raw@.take(i as int + 1),
                    ));
                }
            },
            Option::None => {},
        }
        i += 1;
    }
    proof {
        assert(raw@.take(raw@.len() as int) =~= raw@);
    }
    out
}

impl AppConfig {
    /// Adds one raw entry from the editor: it is trimmed first and rejected
    /// when nothing is left.
    pub fn add_target(&mut self, raw: &str) -> (added: bool)
        ensures
            added == (trim_of(raw@).len() > 0),
            added ==> final(self).targets@.len() == old(self).targets@.len() + 1,
            added ==> final(self).targets@.last()@ == trim_of(raw@),
            added ==> forall|j: int|
                0 <= j < old(self).targets@.len() ==> final(self).targets@[j] == old(
                    self,
                ).targets@[j],
            !added ==> final(self).targets@ == old(self).targets@,
    {
        match normalize_target(raw) {
            Option::Some(t) => {
                self.targets.push(t);
                true
            },
            Option::None => false,
        }
    }

    /// Removes the entry at `idx` from the editor's list, when in range.
    pub fn remove_target(&mut self, idx: usize) -> (removed: bool)
        ensures
            removed == (idx < old(self).targets@.len()),
            removed ==> final(self).targets@ == old(self).targets@.remove(idx as int),
            !removed ==> final(self).targets@ == old(self).targets@,
    {
        if idx < self.targets.len() {
            self.targets.remove(idx);
            true
        } else {
            false
        }
    }
}

} // verus!
