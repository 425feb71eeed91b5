//! Data model of the remote inventory: raw resource records, their tags,
//! the grouped response shape, and the flattening of that shape into one
//! ordered sequence.

use vstd::prelude::*;

verus! {

/// One key/value tag of a resource; the service may omit either side.
#[derive(Debug)]
pub struct Tag {
    pub key: Option<String>,
    pub value: Option<String>,
}

impl Clone for Tag {
    fn clone(&self) -> (r: Self)
        ensures
            r == *self,
    {
        Tag { key: clone_opt_string(&self.key), value: clone_opt_string(&self.value) }
    }
}

fn clone_opt_string(o: &Option<String>) -> (r: Option<String>)
    ensures
        r == *o,
{
    match o {
        Some(s) => Some(s.clone()),
        None => None,
    }
}

/// A raw resource record, reduced to the attributes the picker consumes.
/// Every attribute may be absent; an absent identifier makes the record
/// unusable as a selection result but must never make the run panic.
#[derive(Debug)]
pub struct RawResource {
    pub id: Option<String>,
    pub instance_type: Option<String>,
    pub state: Option<String>,
    pub public_host: Option<String>,
    pub private_host: Option<String>,
    pub launch_secs: Option<i64>,
    pub tags: Vec<Tag>,
}

/// One reservation-like group of the service response.
#[derive(Debug)]
pub struct ResourceGroup {
    pub resources: Vec<RawResource>,
}

/// Why a fetch produced no usable sequence of resources.
#[derive(Debug)]
pub enum FetchError {
    /// The response carried no groups at all (distinct from zero matching
    /// resources, which is a valid empty sequence).
    Empty,
    /// A lower-level I/O, auth or service failure, with its message.
    Transport(String),
}

/// The view of an optional string: its characters, or empty when absent.
pub open spec fn opt_str(o: Option<String>) -> Seq<char> {
    match o {
        Some(s) => s@,
        None => Seq::empty(),
    }
}

/// A resource's identifier as text; empty when it is somehow absent.
pub open spec fn id_of(r: RawResource) -> Seq<char> {
    opt_str(r.id)
}

/// Groups flattened into one sequence: group order, then within-group order.
pub open spec fn flatten_spec(groups: Seq<ResourceGroup>) -> Seq<RawResource>
    decreases groups.len(),
{
    if groups.len() == 0 {
        Seq::empty()
    } else {
        groups[0].resources@ + flatten_spec(groups.drop_first())
    }
}

/// Unwraps the nested response shape into one flat ordered sequence.
/// A response with no groups at all is the structural `Empty` failure;
/// groups that are present but hold no resources flatten to a valid
/// empty sequence.
pub fn flatten_groups(groups: Option<Vec<ResourceGroup>>) -> (out: Result<
    Vec<RawResource>,
    FetchError,
>)
    ensures
        groups is None ==> (out matches Err(e) && e is Empty),
        groups matches Some(gs) ==> (out matches Ok(rs) && rs@ == flatten_spec(gs@)),
{
    match groups {
        None => Err(FetchError::Empty),
        Some(mut gs) => {
            let ghost all = gs@;
            let mut out: Vec<RawResource> = Vec::new();
            while gs.len() > 0
                invariant
                    flatten_spec(all) == out@ + flatten_spec(gs@),
                decreases gs.len(),
            {
                let ghost before = gs@;
                let mut g = gs.remove(0);
                proof {
                    assert(gs@ =~= before.drop_first());
                }
                out.append(&mut g.resources);
            }
            proof {
                assert(flatten_spec(all) =~= out@);
            }
            Ok(out)
        },
    }
}

} // verus!
