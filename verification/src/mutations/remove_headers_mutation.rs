//! Removing headers by name or by regular expression.

use vstd::prelude::*;

use crate::data::{headers_model, HeaderModel};
use crate::mutations::HeadersMutation;
use crate::pattern::{regex_matches, RegexPattern};
use crate::text::{chars_eq, chars_of, lower_seq, lowercase_string};

verus! {

/// The views of a list of names.
pub open spec fn names_model(v: Seq<String>) -> Seq<Seq<char>> {
    Seq::new(v.len(), |i: int| v[i]@)
}

/// `n` is one of `names`.
pub open spec fn name_listed(names: Seq<Seq<char>>, n: Seq<char>) -> bool {
    exists|k: int| 0 <= k < names.len() && names[k] == n
}

/// `hs` without the entries whose name is listed.
pub open spec fn remove_names(hs: Seq<HeaderModel>, names: Seq<Seq<char>>) -> Seq<HeaderModel>
    decreases hs.len(),
{
    if hs.len() == 0 {
        Seq::empty()
    } else if name_listed(names, hs[0].0) {
        remove_names(hs.drop_first(), names)
    } else {
        seq![hs[0]] + remove_names(hs.drop_first(), names)
    }
}

/// The pattern sources of a list of compiled expressions.
pub open spec fn patterns_model(v: Seq<RegexPattern>) -> Seq<Seq<char>> {
    Seq::new(v.len(), |i: int| v[i].src())
}

/// Some listed pattern matches `n`.
pub open spec fn any_regex_match(pats: Seq<Seq<char>>, n: Seq<char>) -> bool {
    exists|k: int| 0 <= k < pats.len() && regex_matches(pats[k], n)
}

/// `hs` without the entries whose name some pattern matches.
pub open spec fn remove_matching(hs: Seq<HeaderModel>, pats: Seq<Seq<char>>) -> Seq<HeaderModel>
    decreases hs.len(),
{
    if hs.len() == 0 {
        Seq::empty()
    } else if any_regex_match(pats, hs[0].0) {
        remove_matching(hs.drop_first(), pats)
    } else {
        seq![hs[0]] + remove_matching(hs.drop_first(), pats)
    }
}

/// Removes a fixed set of headers; the names are folded to lowercase when the
/// mutation is built, matching the lowercased names headers are stored under.
#[derive(Debug)]
pub struct RemoveHeadersMutation {
    pub headers: Vec<String>,
}

impl RemoveHeadersMutation {
    /// A mutation that removes every header named in `headers`,
    /// case-insensitively.
    pub fn new(headers: Vec<String>) -> (r: Self)
        ensures
            r.headers@.len() == headers@.len(),
            forall|i: int| 0 <= i < headers@.len() ==> #[trigger] r.headers@[i]@ == lower_seq(
                headers@[i]@,
            ),
    {
        let mut lowered: Vec<String> = Vec::new();
        let n = headers.len();
        let mut i: usize = 0;
        while i < n
            invariant
                n == headers@.len(),
                i <= n,
                lowered@.len() == i,
                forall|k: int| 0 <= k < i ==> #[trigger] lowered@[k]@ == lower_seq(headers@[k]@),
            decreases n - i,
        {
            lowered.push(lowercase_string(headers[i].as_str()));
            i = i + 1;
        }
        Self { headers: lowered }
    }
}

/// `n` is one of the names in `names` (executable form of [`name_listed`]).
fn name_in_list(names: &Vec<String>, n: &[char]) -> (r: bool)
    ensures
        r == name_listed(names_model(names@), n@),
{
    let ghost nm = names_model(names@);
    let count = names.len();
    let mut i: usize = 0;
    while i < count
        invariant
            count == names@.len(),
            nm == names_model(names@),
            i <= count,
            forall|k: int| 0 <= k < i ==> nm[k] != n@,
        decreases count - i,
    {
        let entry = chars_of(names[i].as_str());
        if chars_eq(entry.as_slice(), n) {
            proof {
                assert(nm[i as int] == n@);
            }
            return true;
        }
        i = i + 1;
    }
    proof {
        if name_listed(nm, n@) {
            let k = choose|k: int| 0 <= k < nm.len() && nm[k] == n@;
            assert(false);
        }
    }
    false
}

impl HeadersMutation for RemoveHeadersMutation {
    open spec fn spec_mutate(&self, headers: Seq<HeaderModel>) -> Seq<HeaderModel> {
        remove_names(headers, names_model(self.headers@))
    }

    fn mutate(&self, headers: &mut Vec<(String, String)>) {
        let ghost hm = headers_model(old(headers)@);
        let ghost nm = names_model(self.headers@);
        let mut kept: Vec<(String, String)> = Vec::new();
        let count = headers.len();
        let mut i: usize = 0;
        proof {
            assert(hm.skip(0) =~= hm);
            assert(headers_model(kept@) =~= Seq::<HeaderModel>::empty());
        }
        while i < count
            invariant
                count == headers@.len(),
                headers@ == old(headers)@,
                hm == headers_model(headers@),
                nm == names_model(self.headers@),
                i <= count,
                remove_names(hm, nm) == headers_model(kept@) + remove_names(
                    hm.skip(i as int),
                    nm,
                ),
            decreases count - i,
        {
            let ghost rest = hm.skip(i as int);
            proof {
                assert(rest[0] == hm[i as int]);
                assert(rest.drop_first() =~= hm.skip(i + 1));
            }
            let name = chars_of(headers[i].0.as_str());
            let ghost kept0 = headers_model(kept@);
            if !name_in_list(&self.headers, name.as_slice()) {
                let entry = (headers[i].0.clone(), headers[i].1.clone());
                kept.push(entry);
                proof {
                    assert(headers_model(kept@) =~= kept0 + seq![hm[i as int]]);
                    assert(kept0 + (seq![hm[i as int]] + remove_names(hm.skip(i + 1), nm))
                        =~= headers_model(kept@) + remove_names(hm.skip(i + 1), nm));
                }
            }
            i = i + 1;
        }
        proof {
            assert(hm.skip(count as int) =~= Seq::<HeaderModel>::empty());
            assert(headers_model(kept@) =~= remove_names(hm, nm));
        }
        *headers = kept;
    }
}

/// Removes every header whose name matches any of a fixed set of regular
/// expressions.
#[derive(Debug)]
pub struct RemoveHeadersRegexMutation {
    pub patterns: Vec<RegexPattern>,
}

impl RemoveHeadersRegexMutation {
    /// A mutation that removes every header whose name any pattern matches.
    pub fn new(patterns: Vec<RegexPattern>) -> (r: Self)
        ensures
            r.patterns@ == patterns@,
    {
        Self { patterns }
    }
}

/// Some pattern in `patterns` matches `n` (executable form of
/// [`any_regex_match`]).
fn any_pattern_matches(patterns: &Vec<RegexPattern>, n: &str) -> (r: bool)
    ensures
        r == any_regex_match(patterns_model(patterns@), n@),
{
    let ghost pm = patterns_model(patterns@);
    let count = patterns.len();
    let mut i: usize = 0;
    while i < count
        invariant
            count == patterns@.len(),
            pm == patterns_model(patterns@),
            i <= count,
            forall|k: int| 0 <= k < i ==> !regex_matches(pm[k], n@),
        decreases count - i,
    {
        if patterns[i].is_match(n) {
            proof {
                assert(regex_matches(pm[i as int], n@));
            }
            return true;
        }
        i = i + 1;
    }
    proof {
        if any_regex_match(pm, n@) {
            let k = choose|k: int| 0 <= k < pm.len() && regex_matches(pm[k], n@);
            assert(false);
        }
    }
    false
}

impl HeadersMutation for RemoveHeadersRegexMutation {
    open spec fn spec_mutate(&self, headers: Seq<HeaderModel>) -> Seq<HeaderModel> {
        remove_matching(headers, patterns_model(self.patterns@))
    }

    fn mutate(&self, headers: &mut Vec<(String, String)>) {
        let ghost hm = headers_model(old(headers)@);
        let ghost pm = patterns_model(self.patterns@);
        let mut kept: Vec<(String, String)> = Vec::new();
        let count = headers.len();
        let mut i: usize = 0;
        proof {
            assert(hm.skip(0) =~= hm);
            assert(headers_model(kept@) =~= Seq::<HeaderModel>::empty());
        }
        while i < count
            invariant
                count == headers@.len(),
                headers@ == old(headers)@,
                hm == headers_model(headers@),
                pm == patterns_model(self.patterns@),
                i <= count,
                remove_matching(hm, pm) == headers_model(kept@) + remove_matching(
                    hm.skip(i as int),
                    pm,
                ),
            decreases count - i,
        {
            let ghost rest = hm.skip(i as int);
            proof {
                assert(rest[0] == hm[i as int]);
                assert(rest.drop_first() =~= hm.skip(i + 1));
            }
            let ghost kept0 = headers_model(kept@);
            if !any_pattern_matches(&self.patterns, headers[i].0.as_str()) {
                let entry = (headers[i].0.clone(), headers[i].1.clone());
                kept.push(entry);
                proof {
                    assert(headers_model(kept@) =~= kept0 + seq![hm[i as int]]);
                    assert(kept0 + (seq![hm[i as int]] + remove_matching(hm.skip(i + 1), pm))
                        =~= headers_model(kept@) + remove_matching(hm.skip(i + 1), pm));
                }
            }
            i = i + 1;
        }
        proof {
            assert(hm.skip(count as int) =~= Seq::<HeaderModel>::empty());
            assert(headers_model(kept@) =~= remove_matching(hm, pm));
        }
        *headers = kept;
    }
}

} // verus!
