//! The resources of an object, by type and by identifier, each in ascending
//! order: the order in which the resource directory lists them.

use vstd::prelude::*;
use crate::ResourceType;

verus! {

/// Where a payload lies in the data section, and the symbol that names it.
#[derive(Debug, Clone, Copy, PartialEq, Eq, Structural)]
pub struct ResourceLocation {
    pub offset: usize,
    pub size: usize,
    pub symbol_id: usize,
}

/// One resource of a type: its identifier and its place.
#[derive(Debug, Clone, Copy, PartialEq, Eq, Structural)]
pub struct IdNode {
    pub id: u32,
    pub location: ResourceLocation,
}

/// The resources of one type.
#[derive(Debug)]
pub struct TypeNode {
    pub ty: ResourceType,
    pub ids: Vec<IdNode>,
}

/// The resources of one type, as plain values.
pub struct TypeNodeView {
    pub ty: ResourceType,
    pub ids: Seq<IdNode>,
}

impl View for TypeNode {
    type V = TypeNodeView;

    open spec fn view(&self) -> TypeNodeView {
        TypeNodeView { ty: self.ty, ids: self.ids@ }
    }
}

/// A table as plain values.
pub type Table = Seq<TypeNodeView>;

/// Whether the identifiers ascend strictly.
pub open spec fn ids_sorted(ids: Seq<IdNode>) -> bool {
    forall|i: int, j: int| 0 <= i < j < ids.len() ==> (#[trigger] ids[i]).id < (#[trigger] ids[j]).id
}

/// Whether the types ascend strictly by their numbers, and each has its
/// identifiers in strictly ascending order and at least one of them.
pub open spec fn table_sorted(t: Table) -> bool {
    &&& forall|i: int, j: int|
        0 <= i < j < t.len() ==> (#[trigger] t[i]).ty.spec_id() < (#[trigger] t[j]).ty.spec_id()
    &&& forall|i: int| 0 <= i < t.len() ==> ids_sorted((#[trigger] t[i]).ids)
    &&& forall|i: int| 0 <= i < t.len() ==> (#[trigger] t[i]).ids.len() > 0
}

/// The number of leading identifiers below `id`.
pub open spec fn id_rank(ids: Seq<IdNode>, id: u32) -> nat
    decreases ids.len(),
{
    if ids.len() == 0 || ids[0].id >= id {
        0
    } else {
        1 + id_rank(ids.skip(1), id)
    }
}

/// The number of leading types whose number is below that of `ty`.
pub open spec fn type_rank(t: Table, ty: ResourceType) -> nat
    decreases t.len(),
{
    if t.len() == 0 || t[0].ty.spec_id() >= ty.spec_id() {
        0
    } else {
        1 + type_rank(t.skip(1), ty)
    }
}

/// `ids` with `node` in the place of the entry with its identifier, or as a
/// new entry behind the identifiers below it.
pub open spec fn ids_inserted(ids: Seq<IdNode>, node: IdNode) -> Seq<IdNode> {
    let i = id_rank(ids, node.id) as int;
    if i < ids.len() && ids[i].id == node.id {
        ids.update(i, node)
    } else {
        ids.insert(i, node)
    }
}

/// `t` with `node` entered under `ty`.
pub open spec fn table_inserted(t: Table, ty: ResourceType, node: IdNode) -> Table {
    let i = type_rank(t, ty) as int;
    if i < t.len() && t[i].ty == ty {
        t.update(i, TypeNodeView { ty, ids: ids_inserted(t[i].ids, node) })
    } else {
        t.insert(i, TypeNodeView { ty, ids: seq![node] })
    }
}

/// The number of resources in a table.
pub open spec fn leaf_count(t: Table) -> nat
    decreases t.len(),
{
    if t.len() == 0 {
        0
    } else {
        leaf_count(t.drop_last()) + t.last().ids.len()
    }
}

/// Whether the table holds `node` under `ty`.
pub open spec fn table_contains(t: Table, ty: ResourceType, node: IdNode) -> bool {
    exists|a: int, b: int|
        0 <= a < t.len() && 0 <= b < t[a].ids.len() && t[a].ty == ty && #[trigger] t[a].ids[b]
            == node
}

/// What lies before the place that [`id_rank`] gives has smaller
/// identifiers; the entry at that place has none.
pub proof fn lemma_id_rank(ids: Seq<IdNode>, id: u32)
    ensures
        id_rank(ids, id) <= ids.len(),
        forall|j: int| 0 <= j < id_rank(ids, id) ==> (#[trigger] ids[j]).id < id,
        id_rank(ids, id) < ids.len() ==> ids[id_rank(ids, id) as int].id >= id,
    decreases ids.len(),
{
    if ids.len() == 0 || ids[0].id >= id {
    } else {
        let t = ids.skip(1);
        lemma_id_rank(t, id);
        assert forall|j: int| 0 <= j < id_rank(ids, id) implies (#[trigger] ids[j]).id < id by {
            if j > 0 {
                assert(ids[j] == t[j - 1]);
            }
        }
        if id_rank(ids, id) < ids.len() {
            assert(ids[id_rank(ids, id) as int] == t[id_rank(t, id) as int]);
        }
    }
}

proof fn lemma_id_rank_at(ids: Seq<IdNode>, id: u32, i: int)
    requires
        0 <= i <= ids.len(),
        forall|j: int| 0 <= j < i ==> (#[trigger] ids[j]).id < id,
        i < ids.len() ==> ids[i].id >= id,
    ensures
        id_rank(ids, id) == i,
    decreases i,
{
    if i > 0 {
        let t = ids.skip(1);
        assert forall|j: int| 0 <= j < i - 1 implies (#[trigger] t[j]).id < id by {
            assert(t[j] == ids[j + 1]);
        }
        lemma_id_rank_at(t, id, i - 1);
    }
}

/// What lies before the place that [`type_rank`] gives has smaller type
/// numbers; the entry at that place has none.
pub proof fn lemma_type_rank(t: Table, ty: ResourceType)
    ensures
        type_rank(t, ty) <= t.len(),
        forall|j: int| 0 <= j < type_rank(t, ty) ==> (#[trigger] t[j]).ty.spec_id() < ty.spec_id(),
        type_rank(t, ty) < t.len() ==> t[type_rank(t, ty) as int].ty.spec_id() >= ty.spec_id(),
    decreases t.len(),
{
    if t.len() == 0 || t[0].ty.spec_id() >= ty.spec_id() {
    } else {
        let r = t.skip(1);
        lemma_type_rank(r, ty);
        assert forall|j: int| 0 <= j < type_rank(t, ty) implies (#[trigger] t[j]).ty.spec_id()
            < ty.spec_id() by {
            if j > 0 {
                assert(t[j] == r[j - 1]);
            }
        }
        if type_rank(t, ty) < t.len() {
            assert(t[type_rank(t, ty) as int] == r[type_rank(r, ty) as int]);
        }
    }
}

proof fn lemma_type_rank_at(t: Table, ty: ResourceType, i: int)
    requires
        0 <= i <= t.len(),
        forall|j: int| 0 <= j < i ==> (#[trigger] t[j]).ty.spec_id() < ty.spec_id(),
        i < t.len() ==> t[i].ty.spec_id() >= ty.spec_id(),
    ensures
        type_rank(t, ty) == i,
    decreases i,
{
    if i > 0 {
        let r = t.skip(1);
        assert forall|j: int| 0 <= j < i - 1 implies (#[trigger] r[j]).ty.spec_id()
            < ty.spec_id() by {
            assert(r[j] == t[j + 1]);
        }
        lemma_type_rank_at(r, ty, i - 1);
    }
}

/// Entering an identifier keeps the identifiers in order.
pub proof fn lemma_ids_inserted_sorted(ids: Seq<IdNode>, node: IdNode)
    requires
        ids_sorted(ids),
    ensures
        ids_sorted(ids_inserted(ids, node)),
        ids_inserted(ids, node).len() > 0,
{
    lemma_id_rank(ids, node.id);
    let i = id_rank(ids, node.id) as int;
    let r = ids_inserted(ids, node);
    assert forall|a: int, b: int| 0 <= a < b < r.len() implies (#[trigger] r[a]).id < (
    #[trigger] r[b]).id by {
        if i < ids.len() && ids[i].id == node.id {
            assert(r[a].id == ids[a].id);
            assert(r[b].id == ids[b].id);
        } else {
            if a < i {
                assert(r[a] == ids[a]);
            } else if a > i {
                assert(r[a] == ids[a - 1]);
                assert(ids[i].id <= ids[a - 1].id);
            }
            if b < i {
                assert(r[b] == ids[b]);
            } else if b > i {
                assert(r[b] == ids[b - 1]);
                assert(ids[i].id <= ids[b - 1].id);
            }
        }
    }
}

/// Different types have different numbers.
pub proof fn lemma_type_id_injective(a: ResourceType, b: ResourceType)
    requires
        a.spec_id() == b.spec_id(),
    ensures
        a == b,
{
}

/// Entering a resource keeps the table in order.
pub proof fn lemma_table_inserted_sorted(t: Table, ty: ResourceType, node: IdNode)
    requires
        table_sorted(t),
    ensures
        table_sorted(table_inserted(t, ty, node)),
{
    lemma_type_rank(t, ty);
    let i = type_rank(t, ty) as int;
    let r = table_inserted(t, ty, node);
    if i < t.len() && t[i].ty == ty {
        lemma_ids_inserted_sorted(t[i].ids, node);
        assert forall|a: int, b: int| 0 <= a < b < r.len() implies (#[trigger] r[a]).ty.spec_id() < (
        #[trigger] r[b]).ty.spec_id() by {
            assert(r[a].ty == t[a].ty);
            assert(r[b].ty == t[b].ty);
        }
        assert forall|a: int| 0 <= a < r.len() implies ids_sorted((#[trigger] r[a]).ids)
            && r[a].ids.len() > 0 by {
            if a != i {
                assert(r[a] == t[a]);
            }
        }
    } else {
        if i < t.len() && t[i].ty.spec_id() == ty.spec_id() {
            lemma_type_id_injective(t[i].ty, ty);
        }
        assert forall|a: int, b: int| 0 <= a < b < r.len() implies (#[trigger] r[a]).ty.spec_id() < (
        #[trigger] r[b]).ty.spec_id() by {
            if a < i {
                assert(r[a] == t[a]);
            } else if a > i {
                assert(r[a] == t[a - 1]);
                assert(t[i].ty.spec_id() <= t[a - 1].ty.spec_id());
            }
            if b < i {
                assert(r[b] == t[b]);
            } else if b > i {
                assert(r[b] == t[b - 1]);
                assert(t[i].ty.spec_id() <= t[b - 1].ty.spec_id());
            }
        }
        assert forall|a: int| 0 <= a < r.len() implies ids_sorted((#[trigger] r[a]).ids)
            && r[a].ids.len() > 0 by {
            if a < i {
                assert(r[a] == t[a]);
            } else if a > i {
                assert(r[a] == t[a - 1]);
            } else {
                assert(r[a].ids =~= seq![node]);
            }
        }
    }
}

/// Whether the symbol of every resource of the table lies in `lo..hi`.
pub open spec fn symbols_within(t: Table, lo: nat, hi: nat) -> bool {
    forall|a: int, b: int|
        0 <= a < t.len() && 0 <= b < t[a].ids.len() ==> lo <= (
        #[trigger] t[a].ids[b]).location.symbol_id < hi
}

/// A table with a resource entered holds that resource and, besides it,
/// only resources that it held before.
pub proof fn lemma_table_inserted_symbols(
    t: Table,
    ty: ResourceType,
    node: IdNode,
    lo: nat,
    hi: nat,
    hi2: nat,
)
    requires
        symbols_within(t, lo, hi),
        hi <= hi2,
        lo <= node.location.symbol_id < hi2,
    ensures
        symbols_within(table_inserted(t, ty, node), lo, hi2),
{
    lemma_type_rank(t, ty);
    let i = type_rank(t, ty) as int;
    let r = table_inserted(t, ty, node);
    assert forall|a: int, b: int| 0 <= a < r.len() && 0 <= b < r[a].ids.len() implies lo <= (
    #[trigger] r[a].ids[b]).location.symbol_id < hi2 by {
        if i < t.len() && t[i].ty == ty {
            if a == i {
                let ids = t[i].ids;
                lemma_id_rank(ids, node.id);
                let j = id_rank(ids, node.id) as int;
                if j < ids.len() && ids[j].id == node.id {
                    if b != j {
                        assert(r[a].ids[b] == t[i].ids[b]);
                    }
                } else {
                    if b < j {
                        assert(r[a].ids[b] == t[i].ids[b]);
                    } else if b > j {
                        assert(r[a].ids[b] == t[i].ids[b - 1]);
                    }
                }
            } else {
                assert(r[a].ids[b] == t[a].ids[b]);
            }
        } else {
            if a < i {
                assert(r[a].ids[b] == t[a].ids[b]);
            } else if a > i {
                assert(r[a].ids[b] == t[a - 1].ids[b]);
            }
        }
    }
}

/// Enters `node` among identifiers in ascending order.
pub fn insert_id(ids: &mut Vec<IdNode>, node: IdNode)
    ensures
        final(ids)@ == ids_inserted(old(ids)@, node),
{
    let n = ids.len();
    let mut i: usize = 0;
    while i < n && ids[i].id < node.id
        invariant
            i <= n,
            n == ids@.len(),
            *ids == *old(ids),
            forall|j: int| 0 <= j < i ==> (#[trigger] ids@[j]).id < node.id,
        decreases n - i,
    {
        i += 1;
    }
    proof {
        lemma_id_rank_at(ids@, node.id, i as int);
    }
    if i < n && ids[i].id == node.id {
        ids.set(i, node);
    } else {
        ids.insert(i, node);
    }
}

/// The resources of an object.
#[derive(Debug)]
pub struct ResourceTable {
    pub types: Vec<TypeNode>,
}

impl View for ResourceTable {
    type V = Table;

    open spec fn view(&self) -> Table {
        Seq::new(self.types@.len(), |i: int| self.types@[i]@)
    }
}

impl ResourceTable {
    /// Whether the table is in order.
    pub open spec fn wf(&self) -> bool {
        table_sorted(self@)
    }

    /// The empty table.
    pub fn new() -> (r: Self)
        ensures
            r.wf(),
            r@ == Table::empty(),
    {
        let r = ResourceTable { types: Vec::new() };
        assert(r@ =~= Table::empty());
        r
    }

    /// Enters a resource; one of the same type and identifier is replaced.
    pub fn insert(&mut self, ty: ResourceType, id: u32, location: ResourceLocation)
        requires
            old(self).wf(),
        ensures
            final(self).wf(),
            final(self)@ == table_inserted(old(self)@, ty, IdNode { id, location }),
    {
        let node = IdNode { id, location };
        let n = self.types.len();
        let mut i: usize = 0;
        while i < n && self.types[i].ty.id() < ty.id()
            invariant
                i <= n,
                n == self.types@.len(),
                *self == *old(self),
                forall|j: int| 0 <= j < i ==> (#[trigger] self@[j]).ty.spec_id() < ty.spec_id(),
            decreases n - i,
        {
            i += 1;
        }
        proof {
            lemma_type_rank_at(self@, ty, i as int);
            lemma_table_inserted_sorted(self@, ty, node);
            if i < n && self@[i as int].ty.spec_id() == ty.spec_id() {
                lemma_type_id_injective(self@[i as int].ty, ty);
            }
        }
        if i < n && self.types[i].ty.id() == ty.id() {
            insert_id(&mut self.types[i].ids, node);
            assert(self@ =~= table_inserted(old(self)@, ty, node));
        } else {
            let mut ids: Vec<IdNode> = Vec::new();
            ids.push(node);
            self.types.insert(i, TypeNode { ty, ids });
            assert(self@ =~= table_inserted(old(self)@, ty, node));
        }
    }
}

} // verus!
