//! Topic baselines: the authored per-lesson difficulty prior. Each deal is
//! attributed to the first topic whose match strings occur in its lesson
//! path (case-insensitively), else to the `(unmatched)` default.

use vstd::prelude::*;
use crate::text::{has_substring, lowercase_of, owned, str_contains, to_lowercase, copy_string};

verus! {

broadcast use vstd::string::group_string_axioms;

/// A topic table: a default baseline and the topic rules in order.
#[derive(Debug)]
pub struct Topics {
    pub defaults: Baseline,
    pub topics: Vec<TopicRule>,
}

/// Baseline difficulty on the two axes (ordinal; higher = harder).
#[derive(Clone, Copy, PartialEq, Eq, Debug, Default, Structural)]
pub struct Baseline {
    pub bidding: u8,
    pub cardplay: u8,
}

/// One topic: its name, the substrings that select it, and its baseline.
#[derive(Debug)]
pub struct TopicRule {
    pub name: String,
    /// Substrings matched (case-insensitively) against the lesson path.
    pub matches: Vec<String>,
    pub bidding: u8,
    pub cardplay: u8,
}

/// The rule selects a path whose lower-cased form is `hay`.
pub open spec fn rule_matches(rule: &TopicRule, hay: Seq<char>) -> bool {
    exists|i: int| 0 <= i < rule.matches@.len() && has_substring(hay, lowercase_of(#[trigger] rule.matches@[i]@))
}

/// Index of the first rule that selects `hay`.
pub open spec fn first_matching(rules: Seq<TopicRule>, hay: Seq<char>) -> Option<int>
    decreases rules.len(),
{
    if rules.len() == 0 {
        None
    } else {
        match first_matching(rules.drop_last(), hay) {
            Some(i) => Some(i),
            None => if rule_matches(&rules.last(), hay) { Some(rules.len() - 1) } else { None },
        }
    }
}

/// The topic a lesson path resolves to: the first matching rule's name and
/// baseline, else "(unmatched)" with the defaults.
pub open spec fn resolve_spec(t: &Topics, lesson_path: Seq<char>) -> (Seq<char>, Baseline) {
    match first_matching(t.topics@, lowercase_of(lesson_path)) {
        Some(i) => (t.topics@[i].name@, Baseline { bidding: t.topics@[i].bidding, cardplay: t.topics@[i].cardplay }),
        None => ("(unmatched)"@, t.defaults),
    }
}

/// Whether some pattern of `pats` occurs in `hay`.
pub open spec fn any_occurs(pats: Seq<String>, hay: Seq<char>) -> bool {
    exists|j: int| 0 <= j < pats.len() && has_substring(hay, #[trigger] pats[j]@)
}

/// Index of the first pattern list one of whose patterns occurs in `hay`.
pub open spec fn first_occurring(lists: Seq<Vec<String>>, hay: Seq<char>) -> Option<int>
    decreases lists.len(),
{
    if lists.len() == 0 {
        None
    } else {
        match first_occurring(lists.drop_last(), hay) {
            Some(i) => Some(i),
            None => if any_occurs(lists.last()@, hay) { Some(lists.len() - 1) } else { None },
        }
    }
}

/// `lists` holds, rule by rule and pattern by pattern, the lower-cased
/// match strings of `rules`.
pub open spec fn lowered_patterns(rules: Seq<TopicRule>, lists: Seq<Vec<String>>) -> bool {
    &&& lists.len() == rules.len()
    &&& forall|i: int| 0 <= i < rules.len() ==> (#[trigger] lists[i])@.len() == rules[i].matches@.len()
    &&& forall|i: int, j: int| 0 <= i < rules.len() && 0 <= j < rules[i].matches@.len()
        ==> (#[trigger] lists[i]@[j])@ == lowercase_of(rules[i].matches@[j]@)
}

/// The topic selected by the first pattern list that occurs in the
/// lower-cased path `hay`: that rule's name and baseline, else
/// "(unmatched)" with the defaults.
pub open spec fn resolve_lowered_spec(t: &Topics, hay: Seq<char>, lists: Seq<Vec<String>>) -> (Seq<char>, Baseline) {
    match first_occurring(lists, hay) {
        Some(i) => (t.topics@[i].name@, Baseline { bidding: t.topics@[i].bidding, cardplay: t.topics@[i].cardplay }),
        None => ("(unmatched)"@, t.defaults),
    }
}

proof fn lemma_first_occurring_prefix(lists: Seq<Vec<String>>, hay: Seq<char>, n: int)
    requires
        0 <= n <= lists.len(),
        first_occurring(lists.take(n), hay) is Some,
    ensures
        first_occurring(lists, hay) == first_occurring(lists.take(n), hay),
    decreases lists.len() - n,
{
    if n < lists.len() {
        assert(lists.take(n + 1).drop_last() =~= lists.take(n));
        lemma_first_occurring_prefix(lists, hay, n + 1);
    } else {
        assert(lists.take(n) =~= lists);
    }
}

/// Matching the lower-cased patterns is matching the rules.
proof fn lemma_lowered_first(rules: Seq<TopicRule>, lists: Seq<Vec<String>>, hay: Seq<char>)
    requires
        lowered_patterns(rules, lists),
    ensures
        first_occurring(lists, hay) == first_matching(rules, hay),
    decreases rules.len(),
{
    if rules.len() > 0 {
        let n = rules.len() - 1;
        assert(lowered_patterns(rules.drop_last(), lists.drop_last())) by {
            assert forall|i: int| 0 <= i < n implies (#[trigger] lists.drop_last()[i])@.len()
                == rules.drop_last()[i].matches@.len() by {
                assert(lists.drop_last()[i] == lists[i]);
                assert(lists[i]@.len() == rules[i].matches@.len());
            }
            assert forall|i: int, j: int| 0 <= i < n && 0 <= j < rules.drop_last()[i].matches@.len()
                implies (#[trigger] lists.drop_last()[i]@[j])@ == lowercase_of(rules.drop_last()[i].matches@[j]@) by {
                assert(lists.drop_last()[i] == lists[i]);
                assert(lists[i]@[j]@ == lowercase_of(rules[i].matches@[j]@));
            }
        }
        lemma_lowered_first(rules.drop_last(), lists.drop_last(), hay);
        let r = rules.last();
        let l = lists.last();
        assert(l == lists[n]);
        assert(l@.len() == r.matches@.len());
        if any_occurs(l@, hay) {
            let j = choose|j: int| 0 <= j < l@.len() && has_substring(hay, #[trigger] l@[j]@);
            assert(l@[j]@ == lowercase_of(r.matches@[j]@));
            assert(rule_matches(&r, hay));
        }
        if rule_matches(&r, hay) {
            let j = choose|j: int| 0 <= j < r.matches@.len() && has_substring(hay, lowercase_of(#[trigger] r.matches@[j]@));
            assert(l@[j]@ == lowercase_of(r.matches@[j]@));
            assert(any_occurs(l@, hay));
        }
    }
}

fn list_occurs(pats: &Vec<String>, hay: &str) -> (r: bool)
    ensures
        r == any_occurs(pats@, hay@),
{
    for i in 0..pats.len()
        invariant
            forall|j: int| 0 <= j < i ==> !has_substring(hay@, #[trigger] pats@[j]@),
    {
        if str_contains(hay, pats[i].as_str()) {
            return true;
        }
    }
    false
}

/// The match strings of every rule, lower-cased.
fn lower_patterns(rules: &Vec<TopicRule>) -> (r: Vec<Vec<String>>)
    ensures
        lowered_patterns(rules@, r@),
{
    let mut out: Vec<Vec<String>> = Vec::new();
    for i in 0..rules.len()
        invariant
            out@.len() == i,
            i <= rules@.len(),
            lowered_patterns(rules@.take(i as int), out@),
    {
        let ms = &rules[i].matches;
        let mut l: Vec<String> = Vec::new();
        for j in 0..ms.len()
            invariant
                l@.len() == j,
                ms@ == rules@[i as int].matches@,
                forall|k: int| 0 <= k < j ==> (#[trigger] l@[k])@ == lowercase_of(ms@[k]@),
        {
            l.push(to_lowercase(ms[j].as_str()));
        }
        out.push(l);
        proof {
            let rs = rules@.take(i + 1);
            assert forall|a: int| 0 <= a < rs.len() implies (#[trigger] out@[a])@.len() == rs[a].matches@.len() by {
                if a < i {
                    assert(rs[a] == rules@.take(i as int)[a]);
                }
            }
            assert forall|a: int, b: int| 0 <= a < rs.len() && 0 <= b < rs[a].matches@.len()
                implies (#[trigger] out@[a]@[b])@ == lowercase_of(rs[a].matches@[b]@) by {
                if a < i {
                    assert(rs[a] == rules@.take(i as int)[a]);
                }
            }
        }
    }
    assert(rules@.take(rules@.len() as int) =~= rules@);
    out
}

impl Topics {
    /// Resolves a deal's topic from its lower-cased lesson path `hay`, given
    /// the rules' match strings already lower-cased, rule by rule (see
    /// `resolve_lowered_spec`).
    pub fn resolve_lowered(&self, hay: &str, lowered: &Vec<Vec<String>>) -> (r: (String, Baseline))
        requires
            lowered@.len() == self.topics@.len(),
        ensures
            r.0@ == resolve_lowered_spec(self, hay@, lowered@).0,
            r.1 == resolve_lowered_spec(self, hay@, lowered@).1,
    {
        let mut k: usize = 0;
        while k < lowered.len()
            invariant
                k <= lowered@.len(),
                lowered@.len() == self.topics@.len(),
                first_occurring(lowered@.take(k as int), hay@) is None,
            decreases lowered.len() - k,
        {
            assert(lowered@.take(k + 1).drop_last() =~= lowered@.take(k as int));
            if list_occurs(&lowered[k], hay) {
                proof {
                    lemma_first_occurring_prefix(lowered@, hay@, k + 1);
                }
                let t = &self.topics[k];
                return (copy_string(&t.name), Baseline { bidding: t.bidding, cardplay: t.cardplay });
            }
            k += 1;
        }
        assert(lowered@.take(k as int) =~= lowered@);
        proof {
            reveal_strlit("(unmatched)");
        }
        (owned("(unmatched)"), self.defaults)
    }

    /// Resolves a deal's topic from its lesson path (see `resolve_spec`).
    pub fn resolve(&self, lesson_path: &str) -> (r: (String, Baseline))
        ensures
            r.0@ == resolve_spec(self, lesson_path@).0,
            r.1 == resolve_spec(self, lesson_path@).1,
    {
        let hay = to_lowercase(lesson_path);
        let lowered = lower_patterns(&self.topics);
        proof {
            lemma_lowered_first(self.topics@, lowered@, hay@);
        }
        self.resolve_lowered(hay.as_str(), &lowered)
    }
}

} // verus!
