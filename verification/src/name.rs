//! Name resolver: the strategy that decides what text represents a resource
//! in the picker's list, applied once per resource right after the fetch.

use vstd::prelude::*;
use crate::resource::{RawResource, Tag, id_of};

verus! {

/// The active strategy for deriving a resource's display text. Exactly one
/// rule is active per run and applies uniformly to every item.
#[derive(Debug)]
pub enum NameRule {
    /// Use the value of the tag with this key.
    ByTag(String),
    /// Use the public host name, else the private one, else empty text.
    ByHost,
    /// Use the resource identifier itself.
    ByInstanceId,
}

/// Why the active rule produced no display text for one resource.
#[derive(Debug)]
pub enum NameError {
    /// The named tag is absent, or present without a value.
    TagMissing(String),
}

/// The first tag whose key is present and equals `name`.
pub open spec fn find_tag(tags: Seq<Tag>, name: Seq<char>) -> Option<Tag>
    decreases tags.len(),
{
    if tags.len() == 0 {
        None
    } else if tags[0].key matches Some(k) && k@ == name {
        Some(tags[0])
    } else {
        find_tag(tags.drop_first(), name)
    }
}

/// What resolution yields when it succeeds: `None` exactly when the rule is
/// by-tag and the named tag is absent or has no value. The host and
/// identifier rules fall back to empty text rather than failing.
pub open spec fn resolve_ok(rule: NameRule, r: RawResource) -> Option<Seq<char>> {
    match rule {
        NameRule::ByTag(name) => match find_tag(r.tags@, name@) {
            Some(t) => match t.value {
                Some(v) => Some(v@),
                None => None,
            },
            None => None,
        },
        NameRule::ByHost => Some(host_of(r)),
        NameRule::ByInstanceId => Some(id_of(r)),
    }
}

/// The host text of a resource: public host if present, else private host,
/// else empty.
pub open spec fn host_of(r: RawResource) -> Seq<char> {
    match r.public_host {
        Some(h) => h@,
        None => match r.private_host {
            Some(h) => h@,
            None => Seq::empty(),
        },
    }
}

/// Picks the one rule active for the whole run from the caller's choices:
/// an explicit tag name wins, then the host switch, then the identifier
/// switch; the default is the tag named `Name`.
pub fn choose_rule(name_tag: Option<String>, name_host: bool, name_id: bool) -> (r: NameRule)
    ensures
        name_tag matches Some(t) ==> (r matches NameRule::ByTag(n) && n@ == t@),
        name_tag is None && name_host ==> r is ByHost,
        name_tag is None && !name_host && name_id ==> r is ByInstanceId,
        name_tag is None && !name_host && !name_id ==> (r matches NameRule::ByTag(n) && n@
            == "Name"@),
{
    match name_tag {
        Some(t) => NameRule::ByTag(t),
        None => {
            if name_host {
                NameRule::ByHost
            } else if name_id {
                NameRule::ByInstanceId
            } else {
                NameRule::ByTag(String::from_str("Name"))
            }
        },
    }
}

/// Resolution is total: over every rule and every resource it yields either
/// a display string or the one tag-missing error, and the host and
/// identifier rules always yield a string.
pub proof fn lemma_resolve_total(rule: NameRule, r: RawResource)
    ensures
        resolve_ok(rule, r) is None ==> rule is ByTag,
        rule is ByHost ==> resolve_ok(rule, r) is Some,
        rule is ByInstanceId ==> resolve_ok(rule, r) is Some,
{
}

/// Maps the active rule and one resource to display text, or reports which
/// tag was missing. Pure; never panics, whatever attributes are absent.
#[verifier::loop_isolation(false)]
pub fn resolve(rule: &NameRule, r: &RawResource) -> (out: Result<String, NameError>)
    ensures
        out matches Ok(s) ==> resolve_ok(*rule, *r) == Some(s@),
        out matches Err(e) ==> (resolve_ok(*rule, *r) is None && (e
            matches NameError::TagMissing(m) && (rule matches NameRule::ByTag(n) && m@ == n@))),
{
    match rule {
        NameRule::ByTag(name) => {
            let tags = &r.tags;
            let ghost all = tags@;
            proof {
                assert(all.skip(0) =~= all);
            }
            let mut i: usize = 0;
            while i < tags.len()
                invariant
                    0 <= i <= all.len(),
                    tags@ == all,
                    find_tag(all, name@) == find_tag(all.skip(i as int), name@),
                decreases all.len() - i,
            {
                proof {
                    assert(all.skip(i as int)[0] == all[i as int]);
                    assert(all.skip(i as int).drop_first() =~= all.skip(i as int + 1));
                }
                let matched = match &tags[i].key {
                    Some(k) => k.eq(name),
                    None => false,
                };
                if matched {
                    proof {
                        assert(find_tag(all.skip(i as int), name@) == Some(all[i as int]));
                    }
                    return match &tags[i].value {
                        Some(v) => Ok(v.clone()),
                        None => Err(NameError::TagMissing(name.clone())),
                    };
                }
                i += 1;
            }
            proof {
                assert(all.skip(all.len() as int) =~= Seq::<Tag>::empty());
            }
            Err(NameError::TagMissing(name.clone()))
        },
        NameRule::ByHost => match &r.public_host {
            Some(h) => Ok(h.clone()),
            None => match &r.private_host {
                Some(h) => Ok(h.clone()),
                None => Ok(String::new()),
            },
        },
        NameRule::ByInstanceId => match &r.id {
            Some(s) => Ok(s.clone()),
            None => Ok(String::new()),
        },
    }
}

} // verus!
