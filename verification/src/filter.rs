//! Filter builder: turns raw `key=value` / bare-key filter tokens into
//! structured query predicates for the inventory service.

use vstd::prelude::*;

verus! {

/// A named filter criterion with zero or more values, sent to the
/// inventory service to narrow the result set.
#[derive(Debug)]
pub struct FilterPredicate {
    pub name: String,
    pub values: Vec<String>,
}

/// Mathematical model of a predicate: its name and values as character
/// sequences.
pub struct FilterPredicateView {
    pub name: Seq<char>,
    pub values: Seq<Seq<char>>,
}

impl View for FilterPredicate {
    type V = FilterPredicateView;

    open spec fn view(&self) -> FilterPredicateView {
        FilterPredicateView { name: self.name@, values: self.values.deep_view() }
    }
}

/// Index of the first `=` in `s`, or `s.len()` when there is none.
pub open spec fn first_eq(s: Seq<char>) -> int
    decreases s.len(),
{
    if s.len() == 0 {
        0
    } else if s[0] == '=' {
        0
    } else {
        1 + first_eq(s.drop_first())
    }
}

pub proof fn lemma_first_eq_bounds(s: Seq<char>)
    ensures
        0 <= first_eq(s) <= s.len(),
        first_eq(s) < s.len() ==> s[first_eq(s)] == '=',
        forall|j: int| 0 <= j < first_eq(s) ==> s[j] != '=',
    decreases s.len(),
{
    if s.len() == 0 {
    } else if s[0] == '=' {
    } else {
        lemma_first_eq_bounds(s.drop_first());
        assert forall|j: int| 0 <= j < first_eq(s) implies s[j] != '=' by {
            if j >= 1 {
                assert(s.drop_first()[j - 1] == s[j]);
            }
        };
    }
}

/// `first_eq` is pinned by its defining property: the first index holding
/// `=`, or the length when no index does.
pub proof fn lemma_first_eq_at(s: Seq<char>, i: int)
    requires
        0 <= i <= s.len(),
        forall|j: int| 0 <= j < i ==> s[j] != '=',
        i < s.len() ==> s[i] == '=',
    ensures
        first_eq(s) == if i < s.len() { i } else { s.len() as int },
    decreases s.len(),
{
    if s.len() == 0 {
    } else if i == 0 {
        if s.len() > 0 && s[0] != '=' {
            lemma_first_eq_bounds(s.drop_first());
        }
    } else {
        assert(s[0] != '=');
        assert(forall|j: int| 0 <= j < i - 1 ==> s.drop_first()[j] == s[j + 1] && s[j + 1] != '=');
        assert(i - 1 < s.drop_first().len() ==> s.drop_first()[i - 1] == s[i]);
        lemma_first_eq_at(s.drop_first(), i - 1);
    }
}

/// What the filter builder makes of one raw token: split once on the first
/// `=` into a name and a single value; a token without `=` is a bare
/// predicate name with no values.
pub open spec fn predicate_spec(s: Seq<char>) -> FilterPredicateView {
    let i = first_eq(s);
    if i == s.len() {
        FilterPredicateView { name: s, values: seq![] }
    } else {
        FilterPredicateView { name: s.take(i), values: seq![s.skip(i + 1)] }
    }
}

/// A token without a separator always yields a valueless predicate whose
/// name is the whole token.
pub proof fn lemma_bare_token(s: Seq<char>)
    requires
        forall|j: int| 0 <= j < s.len() ==> s[j] != '=',
    ensures
        predicate_spec(s).name == s,
        predicate_spec(s).values.len() == 0,
{
    lemma_first_eq_at(s, s.len() as int);
}

/// A token with a separator yields the part before the first `=` as the
/// name and the part after it as the single value.
pub proof fn lemma_split_token(s: Seq<char>, i: int)
    requires
        0 <= i < s.len(),
        s[i] == '=',
        forall|j: int| 0 <= j < i ==> s[j] != '=',
    ensures
        predicate_spec(s).name == s.take(i),
        predicate_spec(s).values =~= seq![s.skip(i + 1)],
{
    lemma_first_eq_at(s, i);
}

/// Builds one predicate from one raw filter token.
pub fn build_filter(token: &str) -> (p: FilterPredicate)
    ensures
        p@ == predicate_spec(token@),
{
    let ghost ts = token@;
    let n = token.unicode_len();
    let mut i: usize = 0;
    while i < n && token.get_char(i) != '='
        invariant
            0 <= i <= n,
            n == ts.len(),
            token@ == ts,
            forall|j: int| 0 <= j < i ==> ts[j] != '=',
        decreases n - i,
    {
        i += 1;
    }
    if i < n {
        proof {
            lemma_first_eq_at(ts, i as int);
        }
        let name = token.substring_char(0, i).to_owned();
        let value = token.substring_char(i + 1, n).to_owned();
        let mut values: Vec<String> = Vec::new();
        values.push(value);
        let p = FilterPredicate { name, values };
        proof {
            assert(p.name@ =~= ts.take(i as int));
            assert(p@.values =~= predicate_spec(ts).values);
            assert(p@ =~= predicate_spec(ts));
        }
        p
    } else {
        proof {
            lemma_first_eq_at(ts, n as int);
        }
        let name = token.to_owned();
        let p = FilterPredicate { name, values: Vec::new() };
        proof {
            assert(p@.values =~= predicate_spec(ts).values);
            assert(p@ =~= predicate_spec(ts));
        }
        p
    }
}

/// The filter tokens a run works with: the caller's own, or, when it
/// supplies none, the single built-in token selecting running resources.
pub fn effective_filter_tokens(tokens: Vec<String>) -> (r: Vec<String>)
    ensures
        tokens@.len() > 0 ==> r@ == tokens@,
        tokens@.len() == 0 ==> r@.len() == 1 && r@[0]@ == "instance-state-name=running"@,
{
    if tokens.len() == 0 {
        let mut r: Vec<String> = Vec::new();
        r.push(String::from_str("instance-state-name=running"));
        r
    } else {
        tokens
    }
}

/// Builds one predicate per raw token, preserving order.
pub fn build_filters(tokens: &Vec<String>) -> (r: Vec<FilterPredicate>)
    ensures
        r@.len() == tokens@.len(),
        forall|i: int| 0 <= i < r@.len() ==> #[trigger] r@[i]@ == predicate_spec(tokens@[i]@),
{
    let mut r: Vec<FilterPredicate> = Vec::new();
    let mut i: usize = 0;
    while i < tokens.len()
        invariant
            0 <= i <= tokens@.len(),
            r@.len() == i,
            forall|j: int| 0 <= j < i ==> #[trigger] r@[j]@ == predicate_spec(tokens@[j]@),
        decreases tokens@.len() - i,
    {
        r.push(build_filter(tokens[i].as_str()));
        i += 1;
    }
    r
}

} // verus!

