//! The graph builder: a validated record sequence to a graph of waypoints.
//!
//! The build has two passes, and needs both because a child may be declared
//! before the record that defines it. Pass one walks the records in order and
//! rejects the first id that was already seen. Pass two walks them again and,
//! for each declared child id in declared order, rejects a child equal to the
//! record's own id, rejects a child that is no record's id, and otherwise
//! wires a reference to the child's node. Either pass failing discards all
//! partial state: the build is atomic, a fully wired graph or one error.
//!
//! The graph is an arena: one node per record, in record order, and each
//! node's children are indices into the same returned vector. Cycles and
//! nodes with several parents are valid and expected; only duplicate ids,
//! self-references and dangling references are rejected.

use vstd::prelude::*;

use crate::errors::{BuilderError, ErrorView};
use crate::records::{parse_template, parse_template_spec, Record, RecordView};

verus! {

/// A node of the route graph: its coordinate text and the indices of its
/// children, in declared order, within the vector the build returned. Built
/// once, read-only afterwards.
#[derive(Debug, PartialEq, Eq)]
pub struct Waypoint {
    /// The x and y coordinate text, each a validated float literal.
    pub coords: (String, String),
    /// Indices of this node's children within the returned vector.
    pub children: Vec<usize>,
}

/// The mathematical value of a [`Waypoint`].
pub struct WaypointView {
    pub x: Seq<char>,
    pub y: Seq<char>,
    pub children: Seq<usize>,
}

impl View for Waypoint {
    type V = WaypointView;

    open spec fn view(&self) -> WaypointView {
        WaypointView { x: self.coords.0@, y: self.coords.1@, children: self.children@ }
    }
}

/// Index of the first record at or after `from` whose id is `id`, if any.
pub open spec fn find_id_at(recs: Seq<RecordView>, from: int, id: u32) -> Option<int>
    decreases recs.len() - from,
{
    if from < 0 || from >= recs.len() {
        None
    } else if recs[from].id == id {
        Some(from)
    } else {
        find_id_at(recs, from + 1, id)
    }
}

/// What a found index means: it is in range and holds the id, and nothing
/// before it (at or after `from`) does; `None` means no record at or after
/// `from` has the id.
pub proof fn lemma_find_id_at(recs: Seq<RecordView>, from: int, id: u32)
    requires
        0 <= from,
    ensures
        match find_id_at(recs, from, id) {
            Some(j) => from <= j < recs.len() && recs[j].id == id && (forall|m: int|
                from <= m < j ==> recs[m].id != id),
            None => forall|m: int| from <= m < recs.len() ==> recs[m].id != id,
        },
    decreases recs.len() - from,
{
    if from < recs.len() && recs[from].id != id {
        lemma_find_id_at(recs, from + 1, id);
    }
}

/// The id of the first record at or after `i` whose id already appeared on an
/// earlier record, if any: what pass one rejects.
pub open spec fn first_repeated_at(recs: Seq<RecordView>, i: int) -> Option<u32>
    decreases recs.len() - i,
{
    if i < 0 || i >= recs.len() {
        None
    } else if find_id_at(recs.subrange(0, i), 0, recs[i].id) is Some {
        Some(recs[i].id)
    } else {
        first_repeated_at(recs, i + 1)
    }
}

/// What wiring the children of one record from position `k` on yields: the
/// arena index of each declared child in declared order, or the first
/// self-reference or dangling reference.
pub open spec fn wire_children_at(
    recs: Seq<RecordView>,
    own: u32,
    kids: Seq<u32>,
    k: int,
) -> Result<Seq<usize>, ErrorView>
    decreases kids.len() - k,
{
    if k < 0 || k >= kids.len() {
        Ok(Seq::empty())
    } else {
        let child = kids[k];
        if child == own {
            Err(ErrorView::SelfReference(child))
        } else {
            match find_id_at(recs, 0, child) {
                None => Err(ErrorView::UnknownIdForChild(own, child)),
                Some(j) => match wire_children_at(recs, own, kids, k + 1) {
                    Err(e) => Err(e),
                    Ok(rest) => Ok(seq![j as usize] + rest),
                },
            }
        }
    }
}

/// What pass two yields from record `i` on: one waypoint per record, in
/// record order, each with its record's coordinates and its children wired,
/// or the first error.
pub open spec fn wire_waypoints_at(recs: Seq<RecordView>, i: int) -> Result<
    Seq<WaypointView>,
    ErrorView,
>
    decreases recs.len() - i,
{
    if i < 0 || i >= recs.len() {
        Ok(Seq::empty())
    } else {
        match wire_children_at(recs, recs[i].id, recs[i].child_ids, 0) {
            Err(e) => Err(e),
            Ok(children) => match wire_waypoints_at(recs, i + 1) {
                Err(e) => Err(e),
                Ok(rest) => Ok(
                    seq![(WaypointView { x: recs[i].x, y: recs[i].y, children })] + rest,
                ),
            },
        }
    }
}

/// What building the graph from a record sequence yields: pass one's first
/// duplicate id, or else pass two's waypoints or first wiring error.
pub open spec fn build_spec(recs: Seq<RecordView>) -> Result<Seq<WaypointView>, ErrorView> {
    match first_repeated_at(recs, 0) {
        Some(id) => Err(ErrorView::RepeatedPoint(id)),
        None => wire_waypoints_at(recs, 0),
    }
}

/// What opening a map file's text yields: its records parsed and the graph
/// built from them, surfacing the first error of either stage.
pub open spec fn open_map_spec(text: Seq<char>) -> Result<Seq<WaypointView>, ErrorView> {
    match parse_template_spec(text) {
        Err(e) => Err(e),
        Ok(recs) => build_spec(recs),
    }
}

/// Index of the first record at or after `from` (within the first `upto`
/// records) whose id is `id`, if any.
#[verifier::loop_isolation(false)]
fn find_id_exec(recs: &Vec<Record>, upto: usize, id: u32) -> (r: Option<usize>)
    requires
        upto <= recs@.len(),
    ensures
        ({
            let v = recs@.map_values(|rec: Record| rec@).subrange(0, upto as int);
            match r {
                Some(j) => j < upto && find_id_at(v, 0, id) == Some(j as int),
                None => find_id_at(v, 0, id) is None,
            }
        }),
{
    let ghost v = recs@.map_values(|rec: Record| rec@).subrange(0, upto as int);
    let mut j: usize = 0;
    while j < upto
        invariant
            j <= upto,
            find_id_at(v, 0, id) == find_id_at(v, j as int, id),
        decreases upto - j,
    {
        assert(v[j as int] == recs@[j as int]@);
        if recs[j].id == id {
            return Some(j);
        }
        j = j + 1;
    }
    None
}

/// Build the graph from a record sequence: allocate one node per record,
/// rejecting a repeated id, then wire every declared child, rejecting a
/// self-reference or a child id that is no record's id. Returns the complete
/// collection of nodes, one per record in record order, or the first error
/// with nothing built.
#[verifier::loop_isolation(false)]
pub fn template_to_waypoints(t: Vec<Record>) -> (r: Result<Vec<Waypoint>, BuilderError>)
    ensures
        ({
            let v = t@.map_values(|rec: Record| rec@);
            match r {
                Ok(ws) => build_spec(v) == Ok::<Seq<WaypointView>, ErrorView>(
                    ws@.map_values(|w: Waypoint| w@),
                ),
                Err(e) => build_spec(v) == Err::<Seq<WaypointView>, ErrorView>(e@),
            }
        }),
{
    let ghost v = t@.map_values(|rec: Record| rec@);
    // Pass one: one node per record; a repeated id fails the load.
    let mut i: usize = 0;
    while i < t.len()
        invariant
            i <= v.len(),
            first_repeated_at(v, 0) == first_repeated_at(v, i as int),
        decreases v.len() - i,
    {
        assert(v[i as int] == t@[i as int]@);
        if find_id_exec(&t, i, t[i].id).is_some() {
            return Err(BuilderError::RepeatedPoint(t[i].id));
        }
        i = i + 1;
    }
    assert(first_repeated_at(v, 0) is None);
    // Pass two: wire each record's declared children in declared order.
    let mut ws: Vec<Waypoint> = Vec::new();
    let mut i: usize = 0;
    assert(ws@.map_values(|w: Waypoint| w@) =~= Seq::<WaypointView>::empty());
    while i < t.len()
        invariant
            i <= v.len(),
            first_repeated_at(v, 0) is None,
            match wire_waypoints_at(v, i as int) {
                Ok(rest) => wire_waypoints_at(v, 0) == Ok::<Seq<WaypointView>, ErrorView>(
                    ws@.map_values(|w: Waypoint| w@) + rest,
                ),
                Err(e) => wire_waypoints_at(v, 0) == Err::<Seq<WaypointView>, ErrorView>(e),
            },
        decreases v.len() - i,
    {
        assert(v[i as int] == t@[i as int]@);
        let own = t[i].id;
        let ghost kids = v[i as int].child_ids;
        let mut children: Vec<usize> = Vec::new();
        let mut k: usize = 0;
        assert(children@ + Seq::<usize>::empty() =~= children@);
        while k < t[i].child_ids.len()
            invariant
                i < v.len(),
                k <= kids.len(),
                own == v[i as int].id,
                kids == v[i as int].child_ids,
                match wire_children_at(v, own, kids, k as int) {
                    Ok(rest) => wire_children_at(v, own, kids, 0) == Ok::<Seq<usize>, ErrorView>(
                        children@ + rest,
                    ),
                    Err(e) => wire_children_at(v, own, kids, 0) == Err::<Seq<usize>, ErrorView>(
                        e,
                    ),
                },
            decreases kids.len() - k,
        {
            let child = t[i].child_ids[k];
            assert(child == kids[k as int]);
            if child == own {
                return Err(BuilderError::SelfReference(child));
            }
            match find_id_exec(&t, t.len(), child) {
                None => {
                    proof {
                        assert(v.subrange(0, v.len() as int) =~= v);
                    }
                    return Err(BuilderError::UnknownIdForChild(own, child));
                },
                Some(j) => {
                    proof {
                        assert(v.subrange(0, v.len() as int) =~= v);
                    }
                    let ghost prev = children@;
                    children.push(j);
                    proof {
                        assert(children@ =~= prev + seq![j]);
                        if wire_children_at(v, own, kids, k + 1) is Ok {
                            let rest = wire_children_at(v, own, kids, k + 1)->Ok_0;
                            assert(prev + (seq![j] + rest) =~= (prev + seq![j]) + rest);
                        }
                    }
                },
            }
            k = k + 1;
        }
        proof {
            assert(children@ + Seq::<usize>::empty() =~= children@);
        }
        let ghost prev = ws@.map_values(|w: Waypoint| w@);
        let x = t[i].coords.0.clone();
        let y = t[i].coords.1.clone();
        let w = Waypoint { coords: (x, y), children };
        assert(w@ == (WaypointView { x: v[i as int].x, y: v[i as int].y, children: w.children@ }));
        ws.push(w);
        proof {
            assert(ws@.map_values(|w2: Waypoint| w2@) =~= prev + seq![w@]);
            if wire_waypoints_at(v, i + 1) is Ok {
                let rest = wire_waypoints_at(v, i + 1)->Ok_0;
                assert(prev + (seq![w@] + rest) =~= (prev + seq![w@]) + rest);
            }
        }
        i = i + 1;
    }
    proof {
        assert(ws@.map_values(|w: Waypoint| w@) + Seq::<WaypointView>::empty() =~= ws@.map_values(
            |w: Waypoint| w@,
        ));
    }
    Ok(ws)
}

/// Pass one accepts a record sequence whose ids are pairwise distinct.
proof fn lemma_no_repeat(recs: Seq<RecordView>, i: int)
    requires
        0 <= i,
        forall|a: int, b: int|
            0 <= a < b < recs.len() ==> (#[trigger] recs[a].id) != (#[trigger] recs[b].id),
    ensures
        first_repeated_at(recs, i) is None,
    decreases recs.len() - i,
{
    if i < recs.len() {
        lemma_find_id_at(recs.subrange(0, i), 0, recs[i].id);
        if find_id_at(recs.subrange(0, i), 0, recs[i].id) is Some {
            let j = find_id_at(recs.subrange(0, i), 0, recs[i].id)->Some_0;
            assert(recs.subrange(0, i)[j] == recs[j]);
            assert(false);
        }
        lemma_no_repeat(recs, i + 1);
    }
}

/// Wiring one record's children succeeds when none is the record's own id
/// and each is some record's id, and then yields, in declared order, for
/// each declared child id the index of the record carrying it.
proof fn lemma_wire_children_ok(recs: Seq<RecordView>, own: u32, kids: Seq<u32>, k: int)
    requires
        0 <= k <= kids.len(),
        recs.len() <= usize::MAX,
        forall|m: int| 0 <= m < kids.len() ==> (#[trigger] kids[m]) != own,
        forall|m: int|
            0 <= m < kids.len() ==> exists|j: int|
                0 <= j < recs.len() && (#[trigger] recs[j].id) == (#[trigger] kids[m]),
    ensures
        match wire_children_at(recs, own, kids, k) {
            Ok(children) => children.len() == kids.len() - k && (forall|m: int|
                0 <= m < children.len() ==> (#[trigger] children[m]) < recs.len()
                    && recs[children[m] as int].id == kids[k + m]),
            Err(e) => false,
        },
    decreases kids.len() - k,
{
    if k < kids.len() {
        lemma_find_id_at(recs, 0, kids[k]);
        let found = find_id_at(recs, 0, kids[k]);
        assert(found is Some) by {
            if found is None {
                let j = choose|j: int| 0 <= j < recs.len() && recs[j].id == kids[k];
                assert(recs[j].id != kids[k]);
            }
        }
        lemma_wire_children_ok(recs, own, kids, k + 1);
        let rest = wire_children_at(recs, own, kids, k + 1)->Ok_0;
        let children = wire_children_at(recs, own, kids, k)->Ok_0;
        assert(children == seq![found->Some_0 as usize] + rest);
        assert forall|m: int| 0 <= m < children.len() implies (#[trigger] children[m])
            < recs.len() && recs[children[m] as int].id == kids[k + m] by {
            if m > 0 {
                assert(children[m] == rest[m - 1]);
            }
        }
    }
}

/// Pass two succeeds on such a record sequence, and yields one waypoint per
/// record, in record order, each carrying its record's coordinates and its
/// declared children.
proof fn lemma_wire_waypoints_ok(recs: Seq<RecordView>, i: int)
    requires
        0 <= i <= recs.len(),
        recs.len() <= usize::MAX,
        forall|a: int, m: int|
            0 <= a < recs.len() && 0 <= m < recs[a].child_ids.len() ==> (#[trigger] recs[a]
                .child_ids[m]) != recs[a].id,
        forall|a: int, m: int|
            0 <= a < recs.len() && 0 <= m < recs[a].child_ids.len() ==> exists|j: int|
                0 <= j < recs.len() && (#[trigger] recs[j].id) == (#[trigger] recs[a].child_ids[m]),
    ensures
        match wire_waypoints_at(recs, i) {
            Ok(ws) => ws.len() == recs.len() - i && (forall|a: int|
                0 <= a < ws.len() ==> {
                    let w = #[trigger] ws[a];
                    let rec = recs[i + a];
                    &&& w.x == rec.x
                    &&& w.y == rec.y
                    &&& w.children.len() == rec.child_ids.len()
                    &&& forall|m: int|
                        0 <= m < w.children.len() ==> (#[trigger] w.children[m]) < recs.len()
                            && recs[w.children[m] as int].id == rec.child_ids[m]
                }),
            Err(e) => false,
        },
    decreases recs.len() - i,
{
    if i < recs.len() {
        lemma_wire_children_ok(recs, recs[i].id, recs[i].child_ids, 0);
        lemma_wire_waypoints_ok(recs, i + 1);
        let rest = wire_waypoints_at(recs, i + 1)->Ok_0;
        let ws = wire_waypoints_at(recs, i)->Ok_0;
        assert forall|a: int| 0 < a < ws.len() implies (#[trigger] ws[a]) == rest[a - 1] by {
        }
    }
}

/// Whenever wiring one record's children succeeds, every index it yields
/// points into the record sequence.
proof fn lemma_wire_children_closed(recs: Seq<RecordView>, own: u32, kids: Seq<u32>, k: int)
    requires
        0 <= k,
        recs.len() <= usize::MAX,
    ensures
        match wire_children_at(recs, own, kids, k) {
            Ok(children) => forall|m: int|
                0 <= m < children.len() ==> (#[trigger] children[m]) < recs.len(),
            Err(e) => true,
        },
    decreases kids.len() - k,
{
    if 0 <= k < kids.len() && kids[k] != own {
        lemma_find_id_at(recs, 0, kids[k]);
        lemma_wire_children_closed(recs, own, kids, k + 1);
        if wire_children_at(recs, own, kids, k) is Ok {
            let rest = wire_children_at(recs, own, kids, k + 1)->Ok_0;
            let children = wire_children_at(recs, own, kids, k)->Ok_0;
            assert forall|m: int| 0 < m < children.len() implies (#[trigger] children[m])
                < recs.len() by {
                assert(children[m] == rest[m - 1]);
            }
        }
    }
}

/// Whenever pass two succeeds from `i` on, it yields one waypoint per
/// remaining record and every child index points into the record sequence.
proof fn lemma_wire_waypoints_closed(recs: Seq<RecordView>, i: int)
    requires
        0 <= i <= recs.len(),
        recs.len() <= usize::MAX,
    ensures
        match wire_waypoints_at(recs, i) {
            Ok(ws) => ws.len() == recs.len() - i && (forall|a: int, m: int|
                0 <= a < ws.len() && 0 <= m < ws[a].children.len() ==> (#[trigger] ws[a]
                    .children[m]) < recs.len()),
            Err(e) => true,
        },
    decreases recs.len() - i,
{
    if i < recs.len() {
        lemma_wire_children_closed(recs, recs[i].id, recs[i].child_ids, 0);
        lemma_wire_waypoints_closed(recs, i + 1);
        if wire_waypoints_at(recs, i) is Ok {
            let rest = wire_waypoints_at(recs, i + 1)->Ok_0;
            let ws = wire_waypoints_at(recs, i)->Ok_0;
            assert forall|a: int, m: int|
                0 <= a < ws.len() && 0 <= m < ws[a].children.len() implies (#[trigger] ws[a]
                .children[m]) < recs.len() by {
                if a > 0 {
                    assert(ws[a] == rest[a - 1]);
                }
            }
        }
    }
}

/// A built graph is never partially valid: whenever the build succeeds it
/// returns exactly one node per record, and every child index of every node
/// points into the returned collection, so following children can never
/// leave the graph.
pub proof fn lemma_build_graph_closed(recs: Seq<RecordView>)
    requires
        recs.len() <= usize::MAX,
    ensures
        match build_spec(recs) {
            Ok(ws) => ws.len() == recs.len() && (forall|a: int, m: int|
                0 <= a < ws.len() && 0 <= m < ws[a].children.len() ==> (#[trigger] ws[a]
                    .children[m]) < ws.len()),
            Err(e) => true,
        },
{
    lemma_wire_waypoints_closed(recs, 0);
}

/// Round trip on a well-formed record sequence: when the ids are pairwise
/// distinct, no record lists its own id as a child, and every declared child
/// id is some record's id, the build succeeds and returns exactly one node
/// per record, in record order, each with the coordinates of its record and
/// with one child per declared child id, in declared order, pointing at the
/// node of the record carrying that id.
pub proof fn lemma_build_round_trip(recs: Seq<RecordView>)
    requires
        recs.len() <= usize::MAX,
        forall|a: int, b: int|
            0 <= a < b < recs.len() ==> (#[trigger] recs[a].id) != (#[trigger] recs[b].id),
        forall|a: int, m: int|
            0 <= a < recs.len() && 0 <= m < recs[a].child_ids.len() ==> (#[trigger] recs[a]
                .child_ids[m]) != recs[a].id,
        forall|a: int, m: int|
            0 <= a < recs.len() && 0 <= m < recs[a].child_ids.len() ==> exists|j: int|
                0 <= j < recs.len() && (#[trigger] recs[j].id) == (#[trigger] recs[a].child_ids[m]),
    ensures
        match build_spec(recs) {
            Ok(ws) => ws.len() == recs.len() && (forall|a: int|
                0 <= a < ws.len() ==> {
                    let w = #[trigger] ws[a];
                    let rec = recs[a];
                    &&& w.x == rec.x
                    &&& w.y == rec.y
                    &&& w.children.len() == rec.child_ids.len()
                    &&& forall|m: int|
                        0 <= m < w.children.len() ==> (#[trigger] w.children[m]) < recs.len()
                            && recs[w.children[m] as int].id == rec.child_ids[m]
                }),
            Err(e) => false,
        },
{
    lemma_no_repeat(recs, 0);
    lemma_wire_waypoints_ok(recs, 0);
}

/// What a repeat means: when `first_repeated_at` from `i` on finds nothing,
/// no record at or after `i` shares its id with an earlier record; when it
/// finds an id, two records share that id.
proof fn lemma_first_repeated_at(recs: Seq<RecordView>, i: int)
    requires
        0 <= i,
    ensures
        match first_repeated_at(recs, i) {
            Some(d) => exists|a: int, b: int|
                0 <= a < b < recs.len() && i <= b && (#[trigger] recs[a].id) == (
                #[trigger] recs[b].id) && recs[b].id == d,
            None => forall|a: int, b: int|
                0 <= a < b < recs.len() && i <= b ==> (#[trigger] recs[a].id) != (
                #[trigger] recs[b].id),
        },
    decreases recs.len() - i,
{
    if i < recs.len() {
        lemma_find_id_at(recs.subrange(0, i), 0, recs[i].id);
        match find_id_at(recs.subrange(0, i), 0, recs[i].id) {
            Some(j) => {
                assert(recs.subrange(0, i)[j] == recs[j]);
                assert(0 <= j < i < recs.len() && recs[j].id == recs[i].id && recs[i].id
                    == recs[i].id);
            },
            None => {
                lemma_first_repeated_at(recs, i + 1);
                assert forall|a: int| 0 <= a < i implies recs.subrange(0, i)[a] == recs[a] by {
                }
                match first_repeated_at(recs, i + 1) {
                    Some(d) => {
                    },
                    None => {
                        assert forall|a: int, b: int|
                            0 <= a < b < recs.len() && i <= b implies (#[trigger] recs[a].id) != (
                        #[trigger] recs[b].id) by {
                            if b == i {
                                assert(recs.subrange(0, i)[a] == recs[a]);
                            }
                        }
                    },
                }
            },
        }
    }
}

/// Duplicate detection: a record sequence in which two records share an id
/// fails the build with a duplicate-id error naming a shared id, wherever
/// the duplicate appears.
pub proof fn lemma_duplicate_detected(recs: Seq<RecordView>)
    requires
        exists|a: int, b: int|
            0 <= a < b < recs.len() && (#[trigger] recs[a].id) == (#[trigger] recs[b].id),
    ensures
        match build_spec(recs) {
            Ok(ws) => false,
            Err(e) => exists|a: int, b: int|
                0 <= a < b < recs.len() && (#[trigger] recs[a].id) == (#[trigger] recs[b].id)
                    && e == ErrorView::RepeatedPoint(recs[b].id),
        },
{
    lemma_first_repeated_at(recs, 0);
    match first_repeated_at(recs, 0) {
        Some(d) => {
            let (a, b) = choose|a: int, b: int|
                0 <= a < b < recs.len() && 0 <= b && (#[trigger] recs[a].id) == (
                #[trigger] recs[b].id) && recs[b].id == d;
            assert(0 <= a < b < recs.len() && recs[a].id == recs[b].id && build_spec(recs)
                == Err::<Seq<WaypointView>, ErrorView>(ErrorView::RepeatedPoint(recs[b].id)));
        },
        None => {
            let (a, b) = choose|a: int, b: int|
                0 <= a < b < recs.len() && (#[trigger] recs[a].id) == (#[trigger] recs[b].id);
            assert(recs[a].id != recs[b].id);
        },
    }
}

/// Open a map from the full contents of its file: parse the records and
/// build the graph, surfacing the first error of either stage. Reading the
/// file is the caller's job; an unreadable file is its own error kind,
/// [`BuilderError::IOError`], which the caller raises.
pub fn open_map(text: &str) -> (r: Result<Vec<Waypoint>, BuilderError>)
    ensures
        match r {
            Ok(ws) => open_map_spec(text@) == Ok::<Seq<WaypointView>, ErrorView>(
                ws@.map_values(|w: Waypoint| w@),
            ),
            Err(e) => open_map_spec(text@) == Err::<Seq<WaypointView>, ErrorView>(e@),
        },
{
    match parse_template(text) {
        Err(e) => Err(e),
        Ok(recs) => template_to_waypoints(recs),
    }
}

} // verus!
