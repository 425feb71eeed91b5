//! Selectable items: the fixed display / preview / output contract that lets
//! the interactive picker treat live resources and the synthetic error entity
//! uniformly.

use vstd::prelude::*;
use vstd::multiset::Multiset;
use crate::name::{NameRule, resolve, resolve_ok};
use crate::resource::{RawResource, Tag, id_of, opt_str};

verus! {

/// What chrono_humanize makes of a signed duration in whole seconds; the
/// text depends on the duration alone.
pub uninterp spec fn human_of(delta_secs: int) -> Seq<char>;

/// Largest magnitude, in whole seconds, that the duration type accepts.
pub const DELTA_SECS_BOUND: i64 = 9_223_372_036_854_775;

/// Relies on chrono::TimeDelta::seconds (panics beyond the bound) and on
/// chrono_humanize::HumanTime's plain formatting, which turns a signed
/// duration into relative text such as "3 hours ago".
#[verifier::external_body]
fn humanize_delta_secs(delta: i64) -> (r: String)
    requires
        -DELTA_SECS_BOUND <= delta <= DELTA_SECS_BOUND,
    ensures
        r@ == human_of(delta as int),
{
    let delta = chrono::TimeDelta::seconds(delta);
    let text = chrono_humanize::HumanTime::from(delta);
    format!("{}", text)
}

/// Lexicographic order on character sequences by code point.
pub open spec fn lex_le(a: Seq<char>, b: Seq<char>) -> bool
    decreases a.len(),
{
    if a.len() == 0 {
        true
    } else if b.len() == 0 {
        false
    } else if (a[0] as u32) < (b[0] as u32) {
        true
    } else if (b[0] as u32) < (a[0] as u32) {
        false
    } else {
        lex_le(a.drop_first(), b.drop_first())
    }
}

/// The order is total: of any two texts, one is below or equal to the other.
pub proof fn lemma_lex_le_total(a: Seq<char>, b: Seq<char>)
    ensures
        lex_le(a, b) || lex_le(b, a),
    decreases a.len(),
{
    if a.len() == 0 {
    } else if b.len() == 0 {
    } else if (a[0] as u32) < (b[0] as u32) {
    } else if (b[0] as u32) < (a[0] as u32) {
    } else {
        lemma_lex_le_total(a.drop_first(), b.drop_first());
    }
}

/// The order is transitive.
pub proof fn lemma_lex_le_trans(a: Seq<char>, b: Seq<char>, c: Seq<char>)
    requires
        lex_le(a, b),
        lex_le(b, c),
    ensures
        lex_le(a, c),
    decreases a.len(),
{
    if a.len() == 0 {
    } else if b.len() == 0 {
        assert(false);
    } else if c.len() == 0 {
        assert(false);
    } else {
        if (a[0] as u32) < (b[0] as u32) {
            assert(!((c[0] as u32) < (b[0] as u32)));
        } else {
            if (b[0] as u32) < (c[0] as u32) {
            } else {
                lemma_lex_le_trans(a.drop_first(), b.drop_first(), c.drop_first());
            }
        }
    }
}

/// The key a tag is ordered by: its key text, or empty when absent.
pub open spec fn tag_key(t: Tag) -> Seq<char> {
    opt_str(t.key)
}

/// A tag sequence in key order: no later key is below an earlier one.
pub open spec fn keys_ordered(s: Seq<Tag>) -> bool {
    forall|i: int, j: int|
        0 <= i < j < s.len() ==> lex_le(tag_key(#[trigger] s[i]), tag_key(#[trigger] s[j]))
}

/// `t` placed in front of the first entry of `s` whose key is not below
/// `t`'s own key.
pub open spec fn inserted_by_key(t: Tag, s: Seq<Tag>) -> Seq<Tag>
    decreases s.len(),
{
    if s.len() == 0 {
        seq![t]
    } else if lex_le(tag_key(t), tag_key(s[0])) {
        seq![t] + s
    } else {
        seq![s[0]] + inserted_by_key(t, s.drop_first())
    }
}

/// The tags of `s` in key order: each entry inserted into the ordered rest.
pub open spec fn sorted_by_key(s: Seq<Tag>) -> Seq<Tag>
    decreases s.len(),
{
    if s.len() == 0 {
        Seq::empty()
    } else {
        inserted_by_key(s.last(), sorted_by_key(s.drop_last()))
    }
}

/// Decides `lex_le` on two strings.
#[verifier::loop_isolation(false)]
fn str_le(a: &str, b: &str) -> (r: bool)
    ensures
        r == lex_le(a@, b@),
{
    let na = a.unicode_len();
    let nb = b.unicode_len();
    proof {
        assert(a@.skip(0) =~= a@);
        assert(b@.skip(0) =~= b@);
    }
    let mut i: usize = 0;
    loop
        invariant
            0 <= i <= na,
            i <= nb,
            lex_le(a@, b@) == lex_le(a@.skip(i as int), b@.skip(i as int)),
        decreases na - i,
    {
        if i >= na {
            proof {
                assert(a@.skip(i as int) =~= Seq::<char>::empty());
            }
            return true;
        }
        if i >= nb {
            proof {
                assert(b@.skip(i as int) =~= Seq::<char>::empty());
            }
            return false;
        }
        proof {
            assert(a@.skip(i as int)[0] == a@[i as int]);
            assert(b@.skip(i as int)[0] == b@[i as int]);
        }
        let ca = a.get_char(i);
        let cb = b.get_char(i);
        if (ca as u32) < (cb as u32) {
            return true;
        }
        if (cb as u32) < (ca as u32) {
            return false;
        }
        proof {
            assert(a@.skip(i as int).drop_first() =~= a@.skip(i as int + 1));
            assert(b@.skip(i as int).drop_first() =~= b@.skip(i as int + 1));
        }
        i += 1;
    }
}

/// The key text of a tag, as the order sees it.
fn tag_key_str(t: &Tag) -> (r: &str)
    ensures
        r@ == tag_key(*t),
{
    match &t.key {
        Some(k) => k.as_str(),
        None => {
            proof {
                reveal_strlit("");
                assert(""@ =~= Seq::<char>::empty());
            }
            ""
        },
    }
}

/// Inserting at the first position whose key is not below `t`'s key is
/// exactly the ordered insertion.
proof fn lemma_insert_at(t: Tag, s: Seq<Tag>, j: int)
    requires
        0 <= j <= s.len(),
        forall|k: int| 0 <= k < j ==> !lex_le(tag_key(t), tag_key(#[trigger] s[k])),
        j < s.len() ==> lex_le(tag_key(t), tag_key(s[j])),
    ensures
        inserted_by_key(t, s) =~= s.insert(j, t),
    decreases s.len(),
{
    if s.len() == 0 {
    } else if j == 0 {
    } else {
        assert(forall|k: int| 0 <= k < j - 1 ==> s.drop_first()[k] == s[k + 1]);
        assert(j - 1 < s.drop_first().len() ==> s.drop_first()[j - 1] == s[j]);
        lemma_insert_at(t, s.drop_first(), j - 1);
    }
}

/// Copies the tags into key order.
#[verifier::loop_isolation(false)]
fn tags_in_key_order(tags: &Vec<Tag>) -> (r: Vec<Tag>)
    ensures
        r@ == sorted_by_key(tags@),
{
    let mut out: Vec<Tag> = Vec::new();
    proof {
        assert(tags@.take(0) =~= Seq::<Tag>::empty());
    }
    let mut i: usize = 0;
    while i < tags.len()
        invariant
            0 <= i <= tags@.len(),
            out@ == sorted_by_key(tags@.take(i as int)),
        decreases tags@.len() - i,
    {
        let t = tags[i].clone();
        let mut j: usize = 0;
        while j < out.len() && !str_le(tag_key_str(&t), tag_key_str(&out[j]))
            invariant
                0 <= j <= out@.len(),
                forall|k: int| 0 <= k < j ==> !lex_le(tag_key(t), tag_key(#[trigger] out@[k])),
            decreases out@.len() - j,
        {
            j += 1;
        }
        proof {
            lemma_insert_at(t, out@, j as int);
            assert(tags@.take(i as int + 1).drop_last() =~= tags@.take(i as int));
            assert(tags@.take(i as int + 1).last() == tags@[i as int]);
        }
        out.insert(j, t);
        i += 1;
    }
    proof {
        assert(tags@.take(tags@.len() as int) =~= tags@);
    }
    out
}

/// A one-entry sequence carries that one entry, once.
proof fn lemma_singleton_multiset(x: Tag)
    ensures
        seq![x].to_multiset() =~= Multiset::<Tag>::empty().insert(x),
{
    broadcast use vstd::seq_lib::group_to_multiset_ensures;

    assert(seq![x] =~= Seq::<Tag>::empty().push(x));
    assert forall|a: Tag| Seq::<Tag>::empty().to_multiset().count(a) == 0 by {
        if Seq::<Tag>::empty().to_multiset().count(a) > 0 {
            assert(Seq::<Tag>::empty().contains(a));
        }
    };
    assert(Seq::<Tag>::empty().to_multiset() =~= Multiset::<Tag>::empty());
}

/// Ordered insertion keeps the keys ordered, adds exactly the new tag, and
/// introduces no entry of its own.
proof fn lemma_insert_keeps_order(t: Tag, s: Seq<Tag>)
    requires
        keys_ordered(s),
    ensures
        keys_ordered(inserted_by_key(t, s)),
        inserted_by_key(t, s).to_multiset() =~= s.to_multiset().insert(t),
        forall|j: int|
            0 <= j < inserted_by_key(t, s).len() ==> ((#[trigger] inserted_by_key(t, s)[j]) == t
                || s.contains(inserted_by_key(t, s)[j])),
    decreases s.len(),
{
    broadcast use vstd::seq_lib::group_to_multiset_ensures;

    let r = inserted_by_key(t, s);
    lemma_singleton_multiset(t);
    if s.len() == 0 {
        assert(r =~= seq![t]);
        assert(r.to_multiset() =~= s.to_multiset().insert(t));
    } else if lex_le(tag_key(t), tag_key(s[0])) {
        assert(r == seq![t] + s);
        vstd::seq_lib::lemma_multiset_commutative(seq![t], s);
        assert(r.to_multiset() =~= s.to_multiset().insert(t));
        assert forall|i: int, j: int|
            0 <= i < j < r.len() implies lex_le(tag_key(r[i]), tag_key(r[j])) by {
            if i == 0 {
                assert(r[j] == s[j - 1]);
                if j - 1 > 0 {
                    assert(lex_le(tag_key(s[0]), tag_key(s[j - 1])));
                    lemma_lex_le_trans(tag_key(t), tag_key(s[0]), tag_key(s[j - 1]));
                }
            } else {
                assert(r[i] == s[i - 1] && r[j] == s[j - 1]);
            }
        };
        assert forall|j: int| 0 <= j < r.len() implies (r[j] == t || s.contains(r[j])) by {
            if j > 0 {
                assert(r[j] == s[j - 1]);
            }
        };
    } else {
        lemma_lex_le_total(tag_key(t), tag_key(s[0]));
        let rest = s.drop_first();
        assert(forall|k: int| 0 <= k < rest.len() ==> rest[k] == s[k + 1]);
        assert(keys_ordered(rest));
        lemma_insert_keeps_order(t, rest);
        let inner = inserted_by_key(t, rest);
        assert(r == seq![s[0]] + inner);
        vstd::seq_lib::lemma_multiset_commutative(seq![s[0]], inner);
        assert(s =~= seq![s[0]] + rest);
        vstd::seq_lib::lemma_multiset_commutative(seq![s[0]], rest);
        lemma_singleton_multiset(s[0]);
        assert(r.to_multiset() =~= s.to_multiset().insert(t));
        assert forall|j: int| 0 <= j < r.len() implies (r[j] == t || s.contains(r[j])) by {
            if j == 0 {
                assert(r[0] == s[0]);
                assert(s.contains(s[0]));
            } else {
                assert(r[j] == inner[j - 1]);
                if inner[j - 1] != t {
                    assert(rest.contains(inner[j - 1]));
                    let m = choose|m: int| 0 <= m < rest.len() && rest[m] == inner[j - 1];
                    assert(s[m + 1] == inner[j - 1]);
                    assert(s.contains(inner[j - 1]));
                }
            }
        };
        assert forall|i: int, j: int|
            0 <= i < j < r.len() implies lex_le(tag_key(r[i]), tag_key(r[j])) by {
            if i == 0 {
                assert(r[j] == inner[j - 1]);
                if inner[j - 1] == t {
                } else {
                    assert(rest.contains(inner[j - 1]));
                    let m = choose|m: int| 0 <= m < rest.len() && rest[m] == inner[j - 1];
                    assert(lex_le(tag_key(s[0]), tag_key(s[m + 1])));
                }
            } else {
                assert(r[i] == inner[i - 1] && r[j] == inner[j - 1]);
                assert(lex_le(tag_key(inner[i - 1]), tag_key(inner[j - 1])));
            }
        };
    }
}

/// The preview's tag block really is ordered: `sorted_by_key` yields the
/// same tags — as a multiset, nothing lost, nothing invented — with keys in
/// ascending order.
pub proof fn lemma_sorted_by_key_ordered(s: Seq<Tag>)
    ensures
        keys_ordered(sorted_by_key(s)),
        sorted_by_key(s).to_multiset() =~= s.to_multiset(),
    decreases s.len(),
{
    broadcast use vstd::seq_lib::group_to_multiset_ensures;

    if s.len() == 0 {
    } else {
        lemma_sorted_by_key_ordered(s.drop_last());
        lemma_insert_keeps_order(s.last(), sorted_by_key(s.drop_last()));
        assert(s =~= s.drop_last().push(s.last()));
        assert(sorted_by_key(s).to_multiset() =~= s.to_multiset());
    }
}

/// The relative-uptime text: empty when the launch time is absent or its
/// distance from `now` cannot be represented.
pub open spec fn uptime_text(launch: Option<i64>, now: int) -> Seq<char> {
    match launch {
        None => Seq::empty(),
        Some(l) => if -DELTA_SECS_BOUND <= l - now <= DELTA_SECS_BOUND {
            human_of(l - now)
        } else {
            Seq::empty()
        },
    }
}

/// The tag block of the preview: one indented `key: value` line per tag.
pub open spec fn tag_lines(s: Seq<Tag>) -> Seq<char>
    decreases s.len(),
{
    if s.len() == 0 {
        Seq::empty()
    } else {
        "\n  "@ + tag_key(s[0]) + ": "@ + opt_str(s[0].value) + tag_lines(s.drop_first())
    }
}

/// The structured detail panel of one resource at one moment: identifier,
/// type, lifecycle state, relative uptime, host names, and the tags in key
/// order. Absent attributes degrade to empty fields, never to a failure.
pub open spec fn preview_spec(r: RawResource, now: int) -> Seq<char> {
    "instance_id: "@ + id_of(r) + "\ninstance_type: "@ + opt_str(r.instance_type) + "\nstate: "@
        + opt_str(r.state) + "\nuptime: "@ + uptime_text(r.launch_secs, now)
        + "\npublic_dns_name: "@ + opt_str(r.public_host) + "\nprivate_dns_name: "@ + opt_str(
        r.private_host,
    ) + "\ntags:"@ + tag_lines(sorted_by_key(r.tags@))
}

/// Appends an optional field's text, or nothing when it is absent.
fn append_opt(out: &mut String, o: &Option<String>)
    ensures
        final (out)@ == old(out)@ + opt_str(*o),
{
    match o {
        Some(s) => out.append(s.as_str()),
        None => {
            proof {
                assert(out@ + opt_str(*o) =~= out@);
            }
        },
    }
}

/// A live resource wrapped for the picker, with its display text resolved
/// once, immediately after the fetch, and never recomputed.
#[derive(Debug)]
pub struct SelectableItem {
    pub resource: RawResource,
    pub display: String,
}

/// The display text an item gets: the resolved name under the active rule,
/// or the resource's identifier as the clearly-marked fallback when the rule
/// fails for this one resource.
pub open spec fn display_of(rule: NameRule, r: RawResource) -> Seq<char> {
    match resolve_ok(rule, r) {
        Some(v) => v,
        None => id_of(r),
    }
}

impl SelectableItem {
    /// Wraps one fetched resource under the active rule. A resource whose
    /// display text cannot be resolved neither vanishes nor aborts the
    /// batch: it keeps its identifier as display text.
    pub fn new(resource: RawResource, rule: &NameRule) -> (item: Self)
        ensures
            item.resource == resource,
            item.display@ == display_of(*rule, resource),
    {
        let display = match resolve(rule, &resource) {
            Ok(s) => s,
            Err(_) => match &resource.id {
                Some(s) => s.clone(),
                None => String::new(),
            },
        };
        SelectableItem { resource, display }
    }

    /// The text fuzzy matching and the visible list row use.
    pub fn display_text(&self) -> (r: &String)
        ensures
            r@ == self.display@,
    {
        &self.display
    }

    /// The value handed back if this item is selected: the resource's
    /// identifier, independent of the name rule (empty when absent, which
    /// the output stage rejects).
    pub fn output_value(&self) -> (r: String)
        ensures
            r@ == id_of(self.resource),
    {
        match &self.resource.id {
            Some(s) => s.clone(),
            None => String::new(),
        }
    }

    /// The detail panel text, a pure function of the item and the given
    /// current time.
    pub fn preview_text(&self, now: i64) -> (r: String)
        ensures
            r@ == preview_spec(self.resource, now as int),
    {
        let mut out = String::from_str("instance_id: ");
        append_opt(&mut out, &self.resource.id);
        out.append("\ninstance_type: ");
        append_opt(&mut out, &self.resource.instance_type);
        out.append("\nstate: ");
        append_opt(&mut out, &self.resource.state);
        out.append("\nuptime: ");
        let ghost before_uptime = out@;
        match self.resource.launch_secs {
            None => {},
            Some(l) => {
                match l.checked_sub(now) {
                    None => {},
                    Some(d) => {
                        if -DELTA_SECS_BOUND <= d && d <= DELTA_SECS_BOUND {
                            let u = humanize_delta_secs(d);
                            out.append(u.as_str());
                        }
                    },
                }
            },
        }
        proof {
            assert(out@ =~= before_uptime + uptime_text(self.resource.launch_secs, now as int));
        }
        out.append("\npublic_dns_name: ");
        append_opt(&mut out, &self.resource.public_host);
        out.append("\nprivate_dns_name: ");
        append_opt(&mut out, &self.resource.private_host);
        out.append("\ntags:");
        let sorted = tags_in_key_order(&self.resource.tags);
        let ghost sseq = sorted@;
        let ghost before_tags = out@;
        proof {
            assert(sseq.skip(0) =~= sseq);
        }
        let mut k: usize = 0;
        while k < sorted.len()
            invariant
                0 <= k <= sseq.len(),
                sorted@ == sseq,
                before_tags + tag_lines(sseq) == out@ + tag_lines(sseq.skip(k as int)),
            decreases sseq.len() - k,
        {
            proof {
                assert(sseq.skip(k as int)[0] == sseq[k as int]);
                assert(sseq.skip(k as int).drop_first() =~= sseq.skip(k as int + 1));
            }
            out.append("\n  ");
            append_opt(&mut out, &sorted[k].key);
            out.append(": ");
            append_opt(&mut out, &sorted[k].value);
            k += 1;
        }
        proof {
            assert(sseq.skip(sseq.len() as int) =~= Seq::<Tag>::empty());
            assert(out@ =~= preview_spec(self.resource, now as int));
        }
        out
    }
}

/// The synthetic entity that carries a fetch failure through the picker, so
/// the operator sees it inside the same interaction surface.
#[derive(Debug)]
pub struct ErrorItem {
    pub message: String,
}

impl ErrorItem {
    /// The fixed sentinel text shown as its list row.
    pub fn display_text(&self) -> (r: &str)
        ensures
            r@ == "error"@,
    {
        "error"
    }

    /// The failure's message, verbatim.
    pub fn preview_text(&self) -> (r: String)
        ensures
            r@ == self.message@,
    {
        self.message.clone()
    }
}

/// Any entity exposed to the picker: a live resource or the synthetic error
/// entity, behind the one display / preview / output contract.
#[derive(Debug)]
pub enum PickItem {
    Resource(SelectableItem),
    Error(ErrorItem),
}

impl PickItem {
    /// The text fuzzy matching runs on.
    pub fn display_text(&self) -> (r: &str)
        ensures
            self matches PickItem::Resource(it) ==> r@ == it.display@,
            self matches PickItem::Error(_) ==> r@ == "error"@,
    {
        match self {
            PickItem::Resource(it) => it.display_text().as_str(),
            PickItem::Error(e) => e.display_text(),
        }
    }

    /// The detail panel text at the given moment.
    pub fn preview_text(&self, now: i64) -> (r: String)
        ensures
            self matches PickItem::Resource(it) ==> r@ == preview_spec(it.resource, now as int),
            self matches PickItem::Error(e) ==> r@ == e.message@,
    {
        match self {
            PickItem::Resource(it) => it.preview_text(now),
            PickItem::Error(e) => e.preview_text(),
        }
    }
}

/// Round trip: an item's output value is its resource's identifier. Two
/// items wrapping the same resource — under whatever name rules, so with
/// whatever display texts — have the same output value.
pub proof fn lemma_output_independent_of_rule(a: SelectableItem, b: SelectableItem)
    requires
        a.resource == b.resource,
    ensures
        id_of(a.resource) == id_of(b.resource),
        id_of(a.resource) == opt_str(a.resource.id),
{
}

/// Preview idempotence: the preview is a function of the item and the
/// moment alone, so two previews of one item at one moment are equal.
pub proof fn lemma_preview_idempotent(item: SelectableItem, now: int, r1: Seq<char>, r2: Seq<char>)
    requires
        r1 == preview_spec(item.resource, now),
        r2 == preview_spec(item.resource, now),
    ensures
        r1 == r2,
{
}

} // verus!
