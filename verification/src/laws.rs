//! Laws of the lifecycle state machine, stated over the same spec-level
//! transitions that the executable operations' contracts use.

use vstd::prelude::*;
use crate::model::ContainerModel;
use crate::model::contains_name;
use crate::model::unique_names;
use crate::lifecycle::spec_created;
use crate::lifecycle::spec_started_container;
use crate::lifecycle::spec_stopped_container;
use crate::lifecycle::spec_snapshot_tag;

verus! {

/// After a successful `create`, the registry holds exactly one entry with
/// the new name: it sits at the end, carries the given image and an empty
/// history, every earlier entry is untouched and carries another name, and
/// names stay unique.
pub proof fn lemma_create_adds_exactly_one(
    rs: Seq<ContainerModel>,
    name: Seq<char>,
    image: Seq<char>,
)
    requires
        unique_names(rs),
        !contains_name(rs, name),
    ensures
        spec_created(rs, name, image).len() == rs.len() + 1,
        spec_created(rs, name, image).last() == (ContainerModel {
            name,
            image,
            history: Seq::empty(),
        }),
        forall|i: int|
            0 <= i < rs.len() ==> spec_created(rs, name, image)[i] == rs[i] && rs[i].name != name,
        unique_names(spec_created(rs, name, image)),
{
    let rs2 = spec_created(rs, name, image);
    assert forall|i: int| 0 <= i < rs.len() implies rs2[i] == rs[i] && rs[i].name != name by {}
    assert forall|i: int, j: int| 0 <= i < j < rs2.len() implies rs2[i].name != rs2[j].name by {
        if j == rs.len() {
            assert(rs2[i] == rs[i]);
        }
    }
}

/// `create` is idempotent-rejecting: once a `create` with this name went
/// through, the name is registered, so by `create`'s contract a second
/// `create` with the same name (whatever its image) returns the duplicate
/// error and leaves the registry exactly as it was.
pub proof fn lemma_create_then_duplicate(
    rs: Seq<ContainerModel>,
    name: Seq<char>,
    image: Seq<char>,
)
    ensures
        contains_name(spec_created(rs, name, image), name),
{
    let rs2 = spec_created(rs, name, image);
    assert(rs2[rs.len() as int].name == name);
}

/// A successful `start` grows the history by exactly one entry: the new
/// entry carries the container's base image and the observed instance id,
/// and nothing else about the container changes.
pub proof fn lemma_start_appends_base_image(c: ContainerModel, id: Seq<char>, now: int)
    ensures
        spec_started_container(c, id, now).history.len() == c.history.len() + 1,
        spec_started_container(c, id, now).history.last().image == c.image,
        spec_started_container(c, id, now).history.last().container_id == id,
        spec_started_container(c, id, now).history.last().timestamp == now,
        forall|k: int|
            0 <= k < c.history.len() ==> spec_started_container(c, id, now).history[k]
                == c.history[k],
        spec_started_container(c, id, now).name == c.name,
        spec_started_container(c, id, now).image == c.image,
{
}

/// A successful `stop` with history length `k` before the call appends
/// exactly one entry whose image is the snapshot tag `<name>:v<k + 1>`;
/// the history becomes `k + 1` long and its prefix is untouched.
pub proof fn lemma_stop_appends_versioned_snapshot(c: ContainerModel, id: Seq<char>, now: int)
    ensures
        spec_stopped_container(c, id, now).history.len() == c.history.len() + 1,
        spec_stopped_container(c, id, now).history.last().image == spec_snapshot_tag(
            c.name,
            (c.history.len() + 1) as nat,
        ),
        spec_stopped_container(c, id, now).history.last().container_id == id,
        forall|k: int|
            0 <= k < c.history.len() ==> spec_stopped_container(c, id, now).history[k]
                == c.history[k],
        spec_stopped_container(c, id, now).name == c.name,
        spec_stopped_container(c, id, now).image == c.image,
{
}

/// `stop`, then `start`, then `stop` on one container produces strictly
/// increasing version numbers: with history length `k` before the first
/// stop, the two stops record the tags for versions `k + 1` and `k + 3`.
/// Reads such as `list` take the registry by shared reference and so cannot
/// move the versions between these calls.
pub proof fn lemma_stop_start_stop_versions(
    c: ContainerModel,
    id1: Seq<char>,
    t1: int,
    id2: Seq<char>,
    t2: int,
    id3: Seq<char>,
    t3: int,
)
    ensures
        ({
            let k = c.history.len();
            let c1 = spec_stopped_container(c, id1, t1);
            let c2 = spec_started_container(c1, id2, t2);
            let c3 = spec_stopped_container(c2, id3, t3);
            &&& c1.history.last().image == spec_snapshot_tag(c.name, (k + 1) as nat)
            &&& c3.history.last().image == spec_snapshot_tag(c.name, (k + 3) as nat)
            &&& c3.history.len() == k + 3
            &&& k + 1 < k + 3
        }),
{
}

/// Deleting one entry leaves every other registered container's entry and
/// history untouched: earlier entries keep their place, later ones move
/// down by one, the deleted name is gone, and names stay unique.
pub proof fn lemma_delete_leaves_others(rs: Seq<ContainerModel>, i: int)
    requires
        0 <= i < rs.len(),
        unique_names(rs),
    ensures
        rs.remove(i).len() == rs.len() - 1,
        forall|j: int| 0 <= j < i ==> rs.remove(i)[j] == rs[j],
        forall|j: int| i <= j < rs.len() - 1 ==> rs.remove(i)[j] == rs[j + 1],
        !contains_name(rs.remove(i), rs[i].name),
        unique_names(rs.remove(i)),
{
    let rest = rs.remove(i);
    assert forall|j: int| 0 <= j < rest.len() implies rest[j].name != rs[i].name by {
        if j < i {
            assert(rest[j] == rs[j]);
        } else {
            assert(rest[j] == rs[j + 1]);
        }
    }
    assert forall|p: int, q: int| 0 <= p < q < rest.len() implies rest[p].name != rest[q].name by {
        let p0: int = if p < i {
            p
        } else {
            p + 1
        };
        let q0: int = if q < i {
            q
        } else {
            q + 1
        };
        assert(rest[p] == rs[p0]);
        assert(rest[q] == rs[q0]);
    }
}

} // verus!
