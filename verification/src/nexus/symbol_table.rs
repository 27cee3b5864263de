use vstd::prelude::*;

use petgraph::graph::{Graph, NodeIndex};

use crate::nexus::syntax_tree::children_of;

verus! {

/// The type of a variable.
#[derive(Debug, Clone, Copy, PartialEq, Eq, Structural)]
pub enum Type {
    Int,
    String,
    Boolean,
}

/// The flags of a symbol table entry that analysis sets.
#[derive(Debug, Clone, Copy, PartialEq, Eq, Structural)]
pub enum SymbolTableEntryField {
    Initialized,
    Used,
}

/// What is recorded of a declared identifier (the identifier itself is the
/// key it is stored under).
#[derive(Debug, Clone, Copy)]
pub struct SymbolTableEntry {
    pub symbol_type: Type,
    pub position: (usize, usize),
    pub scope: usize,
    pub is_initialized: bool,
    pub is_used: bool,
}

/// Why a declared identifier draws a warning once analysis is over.
#[derive(Debug, Clone, Copy, PartialEq, Eq, Structural)]
pub enum SymbolWarning {
    /// Declared and used, but never given a value.
    UsedNotInitialized,
    /// Declared, but never given a value nor used.
    NeverInitializedOrUsed,
    /// Declared and given a value, but never used.
    InitializedNotUsed,
}

/// The identifiers declared in one scope with their entries, in declaration
/// order.
pub type ScopeTable = Vec<(String, SymbolTableEntry)>;

/// The mathematical view of one scope.
pub type SpecScope = Seq<(Seq<char>, SymbolTableEntry)>;

pub open spec fn scope_view(s: ScopeTable) -> SpecScope {
    s@.map_values(|p: (String, SymbolTableEntry)| (p.0@, p.1))
}

// ---------------------------------------------------------------------------
// The graph of scopes
// ---------------------------------------------------------------------------
/// The node weights (scope tables) of a scope graph, in index order.
pub uninterp spec fn scope_graph_nodes(g: Graph<ScopeTable, ()>) -> Seq<ScopeTable>;

/// The edges (source, target) of a scope graph, in the order they were added.
pub uninterp spec fn scope_graph_edges(g: Graph<ScopeTable, ()>) -> Seq<(usize, usize)>;

/// `Graph::new`: a directed graph with no nodes and no edges.
#[verifier::external_body]
fn scope_graph_new() -> (g: Graph<ScopeTable, ()>)
    ensures
        scope_graph_nodes(g) == Seq::<ScopeTable>::empty(),
        scope_graph_edges(g) == Seq::<(usize, usize)>::empty(),
{
    Graph::new()
}

/// `Graph::add_node`: appends the weight as a new node and returns its index,
/// the former node count; it panics when the count reaches the index type's
/// maximum, which `requires` rules out.
#[verifier::external_body]
fn scope_graph_add_node(g: &mut Graph<ScopeTable, ()>, weight: ScopeTable) -> (r: usize)
    requires
        scope_graph_nodes(*old(g)).len() + 1 < u32::MAX,
    ensures
        scope_graph_nodes(*final(g)) == scope_graph_nodes(*old(g)).push(weight),
        scope_graph_edges(*final(g)) == scope_graph_edges(*old(g)),
        r == scope_graph_nodes(*old(g)).len(),
{
    g.add_node(weight).index()
}

/// `Graph::add_edge`: appends the edge from `a` to `b`; it panics when a node
/// does not exist or the edge count reaches the index type's maximum, which
/// `requires` rules out.
#[verifier::external_body]
fn scope_graph_add_edge(g: &mut Graph<ScopeTable, ()>, a: usize, b: usize)
    requires
        a < scope_graph_nodes(*old(g)).len(),
        b < scope_graph_nodes(*old(g)).len(),
        scope_graph_nodes(*old(g)).len() < u32::MAX,
        scope_graph_edges(*old(g)).len() + 1 < u32::MAX,
    ensures
        scope_graph_nodes(*final(g)) == scope_graph_nodes(*old(g)),
        scope_graph_edges(*final(g)) == scope_graph_edges(*old(g)).push((a, b)),
{
    g.add_edge(NodeIndex::new(a), NodeIndex::new(b), ());
}

/// `Graph::neighbors` on a directed graph: the targets of the edges that
/// leave `a`, listed in reverse order of their addition (empty when `a` does
/// not exist).
#[verifier::external_body]
fn scope_graph_neighbors(g: &Graph<ScopeTable, ()>, a: usize) -> (r: Vec<usize>)
    requires
        a < u32::MAX,
    ensures
        r@ == children_of(scope_graph_edges(*g), a),
{
    let mut out: Vec<usize> = Vec::new();
    for n in g.neighbors(NodeIndex::new(a)) {
        out.push(n.index());
    }
    out
}

/// `Graph::node_weight`: the weight of an existing node.
#[verifier::external_body]
fn scope_graph_node(g: &Graph<ScopeTable, ()>, a: usize) -> (r: &ScopeTable)
    requires
        a < scope_graph_nodes(*g).len(),
        scope_graph_nodes(*g).len() < u32::MAX,
    ensures
        *r == scope_graph_nodes(*g)[a as int],
{
    g.node_weight(NodeIndex::new(a)).unwrap()
}

/// `Graph::node_weight_mut`, written through: replaces the weight of an
/// existing node.
#[verifier::external_body]
fn scope_graph_set_node(g: &mut Graph<ScopeTable, ()>, a: usize, weight: ScopeTable)
    requires
        a < scope_graph_nodes(*old(g)).len(),
        scope_graph_nodes(*old(g)).len() < u32::MAX,
    ensures
        scope_graph_nodes(*final(g)) == scope_graph_nodes(*old(g)).update(a as int, weight),
        scope_graph_edges(*final(g)) == scope_graph_edges(*old(g)),
{
    *g.node_weight_mut(NodeIndex::new(a)).unwrap() = weight;
}

/// `Graph::node_count`: the number of nodes.
#[verifier::external_body]
fn scope_graph_node_count(g: &Graph<ScopeTable, ()>) -> (r: usize)
    ensures
        r == scope_graph_nodes(*g).len(),
{
    g.node_count()
}

/// `Graph::clear`: removes all nodes and edges.
#[verifier::external_body]
fn scope_graph_clear(g: &mut Graph<ScopeTable, ()>)
    ensures
        scope_graph_nodes(*final(g)) == Seq::<ScopeTable>::empty(),
        scope_graph_edges(*final(g)) == Seq::<(usize, usize)>::empty(),
{
    g.clear();
}

// ---------------------------------------------------------------------------
// The model of a symbol table
// ---------------------------------------------------------------------------
/// A tree of scopes, each child pointing at its parent, and the scope that
/// analysis is in.
pub struct SymbolTable {
    graph: Graph<ScopeTable, ()>,
    pub cur_scope: Option<usize>,
}

/// The mathematical view of a symbol table.
pub struct SpecSymbolTable {
    pub scopes: Seq<SpecScope>,
    pub edges: Seq<(usize, usize)>,
    pub cur_scope: Option<usize>,
}

/// Whether a scope declares an identifier.
pub open spec fn has_id(sc: SpecScope, id: Seq<char>) -> bool {
    exists|k: int| 0 <= k < sc.len() && (#[trigger] sc[k]).0 == id
}

/// The entry of an identifier that a scope declares.
pub open spec fn entry_of(sc: SpecScope, id: Seq<char>) -> SymbolTableEntry {
    sc[choose|k: int| 0 <= k < sc.len() && (#[trigger] sc[k]).0 == id].1
}

/// No identifier is declared twice in a scope.
pub open spec fn ids_distinct(sc: SpecScope) -> bool {
    forall|a: int, b: int| 0 <= a < b < sc.len() ==> (#[trigger] sc[a]).0 != (#[trigger] sc[b]).0
}

/// An entry with one of its flags set.
pub open spec fn mark(e: SymbolTableEntry, field: SymbolTableEntryField) -> SymbolTableEntry {
    match field {
        SymbolTableEntryField::Initialized => SymbolTableEntry { is_initialized: true, ..e },
        SymbolTableEntryField::Used => SymbolTableEntry { is_used: true, ..e },
    }
}

/// A scope with one flag set on the entry of an identifier.
pub open spec fn mark_in(sc: SpecScope, id: Seq<char>, field: SymbolTableEntryField) -> SpecScope {
    sc.map_values(
        |p: (Seq<char>, SymbolTableEntry)|
            if p.0 == id {
                (p.0, mark(p.1, field))
            } else {
                p
            },
    )
}

/// The warning an entry draws once analysis is over, if any.
pub open spec fn entry_warning(e: SymbolTableEntry) -> Option<SymbolWarning> {
    if !e.is_initialized {
        if e.is_used {
            Some(SymbolWarning::UsedNotInitialized)
        } else {
            Some(SymbolWarning::NeverInitializedOrUsed)
        }
    } else if !e.is_used {
        Some(SymbolWarning::InitializedNotUsed)
    } else {
        None
    }
}

/// The warnings of the entries of a scope, in declaration order.
pub open spec fn scope_warnings(sc: SpecScope) -> Seq<(Seq<char>, SymbolTableEntry, SymbolWarning)>
    decreases sc.len(),
{
    if sc.len() == 0 {
        Seq::empty()
    } else {
        let rest = scope_warnings(sc.drop_last());
        match entry_warning(sc.last().1) {
            Some(w) => rest.push((sc.last().0, sc.last().1, w)),
            None => rest,
        }
    }
}

/// The warnings of all scopes, scope by scope.
pub open spec fn all_warnings(scopes: Seq<SpecScope>) -> Seq<(Seq<char>, SymbolTableEntry, SymbolWarning)>
    decreases scopes.len(),
{
    if scopes.len() == 0 {
        Seq::empty()
    } else {
        all_warnings(scopes.drop_last()) + scope_warnings(scopes.last())
    }
}

/// Every declaration, scope by scope, in declaration order.
pub open spec fn all_entries(scopes: Seq<SpecScope>) -> Seq<(Seq<char>, SymbolTableEntry)>
    decreases scopes.len(),
{
    if scopes.len() == 0 {
        Seq::empty()
    } else {
        all_entries(scopes.drop_last()) + scopes.last()
    }
}

/// The entry of an identifier visible from the current scope, if there is
/// a current scope and a declaration visible from it.
pub open spec fn visible_entry(t: SpecSymbolTable, id: Seq<char>) -> Option<SymbolTableEntry> {
    match t.cur_scope {
        Some(_) => match t.lookup(id) {
            Some((_, e)) => Some(e),
            None => None,
        },
        None => None,
    }
}

impl SpecSymbolTable {
    pub open spec fn empty() -> SpecSymbolTable {
        SpecSymbolTable { scopes: Seq::empty(), edges: Seq::empty(), cur_scope: None }
    }

    /// The enclosing scope of a scope, if it has one.
    pub open spec fn parent(self, s: int) -> Option<usize> {
        let ps = children_of(self.edges, s as usize);
        if ps.len() > 0 {
            Some(ps[0])
        } else {
            None
        }
    }

    /// The scope that declares an identifier as seen from scope `s` (the
    /// nearest one going outward) and its entry there.
    pub open spec fn lookup_from(self, s: int, id: Seq<char>) -> Option<(usize, SymbolTableEntry)>
        decreases s,
    {
        if !(0 <= s < self.scopes.len()) {
            None
        } else if has_id(self.scopes[s], id) {
            Some((s as usize, entry_of(self.scopes[s], id)))
        } else if s == 0 {
            None
        } else {
            match self.parent(s) {
                Some(p) => if p < s {
                    self.lookup_from(p as int, id)
                } else {
                    None
                },
                None => None,
            }
        }
    }

    /// The declaration of an identifier visible from the current scope.
    pub open spec fn lookup(self, id: Seq<char>) -> Option<(usize, SymbolTableEntry)> {
        match self.cur_scope {
            Some(c) => self.lookup_from(c as int, id),
            None => None,
        }
    }

    /// The table after opening a new scope inside the current one.
    pub open spec fn new_scope(self) -> SpecSymbolTable {
        let n = self.scopes.len() as usize;
        SpecSymbolTable {
            scopes: self.scopes.push(Seq::empty()),
            edges: match self.cur_scope {
                Some(c) => self.edges.push((n, c)),
                None => self.edges,
            },
            cur_scope: Some(n),
        }
    }

    /// The table after leaving the current scope for its parent.
    pub open spec fn end_cur_scope(self) -> SpecSymbolTable {
        match self.cur_scope {
            Some(c) => SpecSymbolTable { cur_scope: self.parent(c as int), ..self },
            None => self,
        }
    }

    /// The table after declaring an identifier in the current scope.
    pub open spec fn declare(self, id: Seq<char>, t: Type, pos: (usize, usize)) -> SpecSymbolTable {
        let c = self.cur_scope->0;
        SpecSymbolTable {
            scopes: self.scopes.update(
                c as int,
                self.scopes[c as int].push(
                    (
                        id,
                        SymbolTableEntry {
                            symbol_type: t,
                            position: pos,
                            scope: c,
                            is_initialized: false,
                            is_used: false,
                        },
                    ),
                ),
            ),
            ..self
        }
    }

    /// The table after setting a flag on the entry of the identifier visible
    /// from the current scope (unchanged when none is visible).
    pub open spec fn set_field(self, id: Seq<char>, field: SymbolTableEntryField) -> SpecSymbolTable {
        match self.lookup(id) {
            Some((s, _)) => SpecSymbolTable {
                scopes: self.scopes.update(s as int, mark_in(self.scopes[s as int], id, field)),
                ..self
            },
            None => self,
        }
    }

    /// The shape every symbol table keeps.
    pub open spec fn wf(self) -> bool {
        &&& self.scopes.len() < u32::MAX
        &&& self.edges.len() <= self.scopes.len()
        &&& self.cur_scope matches Some(c) ==> c < self.scopes.len()
        &&& forall|i: int|
            0 <= i < self.edges.len() ==> (#[trigger] self.edges[i]).1 < self.edges[i].0
                && self.edges[i].0 < self.scopes.len()
        &&& forall|s: int| 0 <= s < self.scopes.len() ==> ids_distinct(#[trigger] self.scopes[s])
        &&& forall|s: int, k: int|
            0 <= s < self.scopes.len() && 0 <= k < self.scopes[s].len() ==> (
            #[trigger] self.scopes[s][k]).1.scope == s
    }
}

impl View for SymbolTable {
    type V = SpecSymbolTable;

    closed spec fn view(&self) -> SpecSymbolTable {
        SpecSymbolTable {
            scopes: scope_graph_nodes(self.graph).map_values(|s: ScopeTable| scope_view(s)),
            edges: scope_graph_edges(self.graph),
            cur_scope: self.cur_scope,
        }
    }
}

proof fn lemma_entry_of(sc: SpecScope, id: Seq<char>, k: int)
    requires
        ids_distinct(sc),
        0 <= k < sc.len(),
        sc[k].0 == id,
    ensures
        has_id(sc, id),
        entry_of(sc, id) == sc[k].1,
{
    let j = choose|j: int| 0 <= j < sc.len() && (#[trigger] sc[j]).0 == id;
    assert(0 <= j < sc.len() && sc[j].0 == id);
    if j < k {
        assert(sc[j].0 != sc[k].0);
    } else if k < j {
        assert(sc[k].0 != sc[j].0);
    }
}

proof fn lemma_children_below(edges: Seq<(usize, usize)>, a: usize)
    requires
        forall|i: int| 0 <= i < edges.len() ==> (#[trigger] edges[i]).1 < edges[i].0,
    ensures
        forall|i: int| 0 <= i < children_of(edges, a).len() ==> #[trigger] children_of(edges, a)[i] < a,
    decreases edges.len(),
{
    if edges.len() > 0 {
        let rest = edges.drop_last();
        assert forall|i: int| 0 <= i < rest.len() implies (#[trigger] rest[i]).1 < rest[i].0 by {
            assert(rest[i] == edges[i]);
        }
        lemma_children_below(rest, a);
        let c = children_of(edges, a);
        let cr = children_of(rest, a);
        assert forall|i: int| 0 <= i < c.len() implies #[trigger] c[i] < a by {
            if edges.last().0 == a {
                if i > 0 {
                    assert(c[i] == cr[i - 1]);
                } else {
                    assert(edges.last() == edges[edges.len() - 1]);
                }
            }
        }
    }
}

/// Whether two strings hold the same characters.
pub fn str_eq(a: &str, b: &str) -> (r: bool)
    ensures
        r == (a@ == b@),
{
    let n: usize = a.unicode_len();
    if n != b.unicode_len() {
        return false;
    }
    let mut k: usize = 0;
    while k < n
        invariant
            n == a@.len(),
            n == b@.len(),
            k <= n,
            forall|j: int| 0 <= j < k ==> a@[j] == b@[j],
        decreases n - k,
    {
        if a.get_char(k) != b.get_char(k) {
            return false;
        }
        k = k + 1;
    }
    assert(a@ =~= b@);
    true
}

/// A copy of a scope table.
fn copy_table(table: &ScopeTable) -> (r: ScopeTable)
    ensures
        scope_view(r) == scope_view(*table),
{
    let mut out: ScopeTable = Vec::new();
    let mut k: usize = 0;
    while k < table.len()
        invariant
            k <= table@.len(),
            scope_view(out) =~= scope_view(*table).take(k as int),
        decreases table.len() - k,
    {
        let name: String = table[k].0.clone();
        let ghost before = scope_view(out);
        out.push((name, table[k].1));
        assert(scope_view(out) =~= before.push(scope_view(*table)[k as int]));
        assert(scope_view(*table).take(k + 1) =~= scope_view(*table).take(k as int).push(scope_view(*table)[k as int]));
        k = k + 1;
    }
    assert(scope_view(*table).take(k as int) =~= scope_view(*table));
    out
}


// ---------------------------------------------------------------------------
// Laws of the symbol table
// ---------------------------------------------------------------------------
proof fn lemma_no_children(edges: Seq<(usize, usize)>, a: usize)
    requires
        forall|i: int| 0 <= i < edges.len() ==> (#[trigger] edges[i]).0 != a,
    ensures
        children_of(edges, a).len() == 0,
    decreases edges.len(),
{
    if edges.len() > 0 {
        let rest = edges.drop_last();
        assert forall|i: int| 0 <= i < rest.len() implies (#[trigger] rest[i]).0 != a by {
            assert(rest[i] == edges[i]);
        }
        lemma_no_children(rest, a);
        assert(edges.last() == edges[edges.len() - 1]);
    }
}

/// Declaring an identifier that the current scope does not declare makes
/// it visible from the current scope, with a fresh entry (neither
/// initialized nor used) in that scope.
pub proof fn lemma_declare_then_lookup(t: SpecSymbolTable, id: Seq<char>, ty: Type, pos: (usize, usize))
    requires
        t.wf(),
        t.cur_scope is Some,
        !has_id(t.scopes[t.cur_scope->0 as int], id),
    ensures
        t.declare(id, ty, pos).lookup(id) == Some(
            (
                t.cur_scope->0,
                SymbolTableEntry {
                    symbol_type: ty,
                    position: pos,
                    scope: t.cur_scope->0,
                    is_initialized: false,
                    is_used: false,
                },
            ),
        ),
{
    let c = t.cur_scope->0;
    let sc = t.scopes[c as int];
    let e = SymbolTableEntry { symbol_type: ty, position: pos, scope: c, is_initialized: false, is_used: false };
    let nsc = sc.push((id, e));
    let t2 = t.declare(id, ty, pos);
    assert(t2.scopes[c as int] == nsc);
    assert(ids_distinct(nsc)) by {
        assert forall|a: int, b: int| 0 <= a < b < nsc.len() implies (#[trigger] nsc[a]).0 != (#[trigger] nsc[b]).0 by {
            if b == nsc.len() - 1 {
                assert(nsc[a] == sc[a]);
            } else {
                assert(nsc[a] == sc[a] && nsc[b] == sc[b]);
            }
        }
    }
    lemma_entry_of(nsc, id, sc.len() as int);
}

/// Opening a scope and then leaving it comes back to the scope that was
/// current before.
pub proof fn lemma_scope_round_trip(t: SpecSymbolTable)
    requires
        t.wf(),
    ensures
        t.new_scope().end_cur_scope().cur_scope == t.cur_scope,
{
    let n = t.scopes.len() as usize;
    let t1 = t.new_scope();
    match t.cur_scope {
        Some(c) => {
            assert(t1.edges.last() == (n, c));
            assert(children_of(t1.edges, n)[0] == c);
        },
        None => {
            assert forall|i: int| 0 <= i < t1.edges.len() implies (#[trigger] t1.edges[i]).0 != n by {
                assert(t1.edges[i] == t.edges[i]);
            }
            lemma_no_children(t1.edges, n);
        },
    }
}

proof fn lemma_lookup_found(t: SpecSymbolTable, x: int, id: Seq<char>)
    requires
        t.wf(),
    ensures
        match t.lookup_from(x, id) {
            Some((s, e)) => 0 <= s < t.scopes.len() && has_id(t.scopes[s as int], id) && e == entry_of(
                t.scopes[s as int],
                id,
            ),
            None => true,
        },
    decreases x,
{
    if 0 <= x < t.scopes.len() && !has_id(t.scopes[x], id) && x != 0 {
        match t.parent(x) {
            Some(p) => {
                if p < x {
                    lemma_lookup_found(t, p as int, id);
                }
            },
            None => {},
        }
    }
}

proof fn lemma_lookup_after_mark(
    t: SpecSymbolTable,
    x: int,
    id: Seq<char>,
    field: SymbolTableEntryField,
    s: usize,
    e: SymbolTableEntry,
)
    requires
        t.wf(),
        t.lookup_from(x, id) == Some((s, e)),
    ensures
        (SpecSymbolTable {
            scopes: t.scopes.update(s as int, mark_in(t.scopes[s as int], id, field)),
            ..t
        }).lookup_from(x, id) == Some((s, mark(e, field))),
    decreases x,
{
    let t2 = SpecSymbolTable { scopes: t.scopes.update(s as int, mark_in(t.scopes[s as int], id, field)), ..t };
    if has_id(t.scopes[x], id) {
        let sc = t.scopes[x];
        let k = choose|k: int| 0 <= k < sc.len() && (#[trigger] sc[k]).0 == id;
        lemma_entry_of(sc, id, k);
        let msc = mark_in(sc, id, field);
        assert(msc[k].0 == id);
        assert(ids_distinct(msc)) by {
            assert forall|a: int, b: int| 0 <= a < b < msc.len() implies (#[trigger] msc[a]).0 != (#[trigger] msc[b]).0 by {
                assert(sc[a].0 != sc[b].0);
            }
        }
        lemma_entry_of(msc, id, k);
        assert(t2.scopes[x] == msc);
    } else {
        if x != 0 {
            match t.parent(x) {
                Some(p) => {
                    if p < x {
                        lemma_lookup_found(t, p as int, id);
                        assert(s != x);
                        lemma_lookup_after_mark(t, p as int, id, field, s, e);
                        assert(t2.scopes[x] == t.scopes[x]);
                    }
                },
                None => {},
            }
        }
    }
}

/// Setting a flag on the identifier visible from the current scope: the
/// identifier stays visible at the same declaration, with the flag set.
pub proof fn lemma_set_field_then_lookup(t: SpecSymbolTable, id: Seq<char>, field: SymbolTableEntryField)
    requires
        t.wf(),
        t.lookup(id) is Some,
    ensures
        match t.lookup(id) {
            Some((s, e)) => t.set_field(id, field).lookup(id) == Some((s, mark(e, field))),
            None => false,
        },
{
    let (s, e) = t.lookup(id)->0;
    lemma_lookup_after_mark(t, t.cur_scope->0 as int, id, field, s, e);
}

impl SymbolTable {
    /// An empty symbol table with no current scope.
    pub fn new() -> (r: Self)
        ensures
            r@ == SpecSymbolTable::empty(),
            r@.wf(),
    {
        let t = SymbolTable { graph: scope_graph_new(), cur_scope: None };
        assert(t@.scopes =~= Seq::<SpecScope>::empty());
        t
    }

    /// Remove every scope.
    pub fn reset(&mut self)
        ensures
            final(self)@ == SpecSymbolTable::empty(),
            final(self)@.wf(),
    {
        scope_graph_clear(&mut self.graph);
        self.cur_scope = None;
        assert(self@.scopes =~= Seq::<SpecScope>::empty());
    }

    /// The current scope, if analysis is in one.
    pub fn current_scope(&self) -> (r: Option<usize>)
        ensures
            r == self@.cur_scope,
    {
        self.cur_scope
    }

    /// The number of scopes created.
    pub fn scope_count(&self) -> (r: usize)
        ensures
            r == self@.scopes.len(),
    {
        scope_graph_node_count(&self.graph)
    }

    /// Make an existing scope the current one.
    pub fn set_cur_scope(&mut self, scope: usize)
        requires
            old(self)@.wf(),
            scope < old(self)@.scopes.len(),
        ensures
            final(self)@ == (SpecSymbolTable { cur_scope: Some(scope), ..old(self)@ }),
            final(self)@.wf(),
    {
        self.cur_scope = Some(scope);
    }

    /// Open a new, empty scope inside the current one (or a new outermost
    /// scope when there is none) and make it current.
    pub fn new_scope(&mut self)
        requires
            old(self)@.wf(),
            old(self)@.scopes.len() + 2 < u32::MAX,
        ensures
            final(self)@ == old(self)@.new_scope(),
            final(self)@.wf(),
    {
        let ghost old_view = self@;
        let empty: ScopeTable = Vec::new();
        assert(scope_view(empty) =~= Seq::<(Seq<char>, SymbolTableEntry)>::empty());
        let new_node: usize = scope_graph_add_node(&mut self.graph, empty);
        if self.cur_scope.is_some() {
            let c = self.cur_scope.unwrap();
            scope_graph_add_edge(&mut self.graph, new_node, c);
        }
        self.cur_scope = Some(new_node);
        assert(self@.scopes =~= old_view.scopes.push(Seq::empty()));
        assert(self@ =~= old_view.new_scope());
    }

    /// Leave the current scope for its parent (no current scope when it has
    /// none).
    pub fn end_cur_scope(&mut self)
        requires
            old(self)@.wf(),
        ensures
            final(self)@ == old(self)@.end_cur_scope(),
            final(self)@.wf(),
    {
        if self.cur_scope.is_some() {
            let c = self.cur_scope.unwrap();
            proof {
                lemma_children_below(self@.edges, c);
            }
            let neighbors = scope_graph_neighbors(&self.graph, c);
            if neighbors.len() > 0 {
                self.cur_scope = Some(neighbors[0]);
            } else {
                self.cur_scope = None;
            }
        }
    }

    /// The position of an identifier in a scope table, if it is there.
    fn find_in_scope(table: &ScopeTable, id: &str) -> (r: Option<usize>)
        requires
            ids_distinct(scope_view(*table)),
        ensures
            r is None <==> !has_id(scope_view(*table), id@),
            r matches Some(k) ==> k < table@.len() && scope_view(*table)[k as int].0 == id@
                && entry_of(scope_view(*table), id@) == table@[k as int].1,
    {
        let ghost sv = scope_view(*table);
        let mut k: usize = 0;
        while k < table.len()
            invariant
                k <= table@.len(),
                sv == scope_view(*table),
                ids_distinct(sv),
                forall|j: int| 0 <= j < k ==> (#[trigger] sv[j]).0 != id@,
            decreases table.len() - k,
        {
            if str_eq(table[k].0.as_str(), id) {
                proof {
                    lemma_entry_of(sv, id@, k as int);
                }
                return Some(k);
            }
            k = k + 1;
        }
        None
    }

    /// Declare an identifier in the current scope; false when the current
    /// scope already declares it.
    pub fn new_identifier(&mut self, id: String, id_type: Type, id_position: (usize, usize)) -> (r: bool)
        requires
            old(self)@.wf(),
            old(self)@.cur_scope is Some,
        ensures
            final(self)@.wf(),
            ({
                let c = old(self)@.cur_scope->0;
                let sc = old(self)@.scopes[c as int];
                &&& r == !has_id(sc, id@)
                &&& final(self)@ == if r {
                    old(self)@.declare(id@, id_type, id_position)
                } else {
                    old(self)@
                }
            }),
    {
        let ghost old_view = self@;
        let c = self.cur_scope.unwrap();
        let table: &ScopeTable = scope_graph_node(&self.graph, c);
        assert(scope_view(*table) == old_view.scopes[c as int]);
        if Self::find_in_scope(table, id.as_str()).is_some() {
            return false;
        }
        let mut new_table: ScopeTable = copy_table(table);
        let entry = SymbolTableEntry {
            symbol_type: id_type,
            position: id_position,
            scope: c,
            is_initialized: false,
            is_used: false,
        };
        let ghost idv = id@;
        new_table.push((id, entry));
        let ghost sc = old_view.scopes[c as int];
        assert(scope_view(new_table) =~= sc.push((idv, entry)));
        let ghost nt_view = scope_view(new_table);
        scope_graph_set_node(&mut self.graph, c, new_table);
        proof {
            let nsc = sc.push((idv, entry));
            assert(ids_distinct(nsc)) by {
                assert forall|a: int, b: int| 0 <= a < b < nsc.len() implies (#[trigger] nsc[a]).0 != (#[trigger] nsc[b]).0 by {
                    if b == nsc.len() - 1 {
                        assert(nsc[a] == sc[a]);
                        assert(!has_id(sc, idv));
                    } else {
                        assert(nsc[a] == sc[a] && nsc[b] == sc[b]);
                    }
                }
            }
            assert(self@.scopes =~= old_view.scopes.update(c as int, nsc));
        }
        true
    }

    /// The entry of an identifier visible from the current scope: the
    /// nearest declaration going outward.
    pub fn get_symbol(&self, id: &str) -> (r: Option<&SymbolTableEntry>)
        requires
            self@.wf(),
            self@.cur_scope is Some,
        ensures
            match self@.lookup(id@) {
                Some((_, e)) => r == Some(&e),
                None => r is None,
            },
    {
        let mut s: usize = self.cur_scope.unwrap();
        loop
            invariant
                self@.wf(),
                s < self@.scopes.len(),
                self@.lookup(id@) == self@.lookup_from(s as int, id@),
            decreases s,
        {
            let table: &ScopeTable = scope_graph_node(&self.graph, s);
            assert(scope_view(*table) == self@.scopes[s as int]);
            match Self::find_in_scope(table, id) {
                Some(k) => {
                    return Some(&table[k].1);
                },
                None => {
                    if s == 0 {
                        return None;
                    }
                    proof {
                        lemma_children_below(self@.edges, s);
                    }
                    let neighbors = scope_graph_neighbors(&self.graph, s);
                    if neighbors.len() == 0 {
                        return None;
                    }
                    s = neighbors[0];
                },
            }
        }
    }

    /// Set a flag on the entry of an identifier visible from the current
    /// scope; nothing changes when none is visible.
    pub fn set_entry_field(&mut self, id: &str, field: SymbolTableEntryField)
        requires
            old(self)@.wf(),
            old(self)@.cur_scope is Some,
        ensures
            final(self)@.wf(),
            final(self)@ == old(self)@.set_field(id@, field),
    {
        let ghost old_view = self@;
        let mut s: usize = self.cur_scope.unwrap();
        loop
            invariant
                self@ == old_view,
                old(self)@ == old_view,
                old_view.wf(),
                s < old_view.scopes.len(),
                old_view.lookup(id@) == old_view.lookup_from(s as int, id@),
            decreases s,
        {
            let table: &ScopeTable = scope_graph_node(&self.graph, s);
            assert(scope_view(*table) == old_view.scopes[s as int]);
            match Self::find_in_scope(table, id) {
                Some(k) => {
                    let mut new_table: ScopeTable = copy_table(table);
                    let mut e: SymbolTableEntry = new_table[k].1;
                    match field {
                        SymbolTableEntryField::Initialized => e.is_initialized = true,
                        SymbolTableEntryField::Used => e.is_used = true,
                    }
                    let name: String = new_table[k].0.clone();
                    let ghost sc = old_view.scopes[s as int];
                    new_table[k] = (name, e);
                    proof {
                        assert(scope_view(new_table) =~= mark_in(sc, id@, field)) by {
                            assert forall|j: int| 0 <= j < sc.len() implies scope_view(new_table)[j] == mark_in(sc, id@, field)[j] by {
                                if j != k {
                                    assert(sc[j].0 != sc[k as int].0);
                                }
                            }
                        }
                    }
                    scope_graph_set_node(&mut self.graph, s, new_table);
                    proof {
                        let nsc = mark_in(sc, id@, field);
                        assert(ids_distinct(nsc)) by {
                            assert forall|a: int, b: int| 0 <= a < b < nsc.len() implies (#[trigger] nsc[a]).0 != (#[trigger] nsc[b]).0 by {
                                assert(sc[a].0 != sc[b].0);
                            }
                        }
                        assert(self@.scopes =~= old_view.scopes.update(s as int, nsc));
                    }
                    return;
                },
                None => {
                    if s == 0 {
                        return;
                    }
                    proof {
                        lemma_children_below(old_view.edges, s);
                    }
                    let neighbors = scope_graph_neighbors(&self.graph, s);
                    if neighbors.len() == 0 {
                        return;
                    }
                    s = neighbors[0];
                },
            }
        }
    }

    /// Every declaration with its entry, scope by scope, in declaration
    /// order.
    pub fn entries(&self) -> (r: Vec<(String, SymbolTableEntry)>)
        requires
            self@.wf(),
        ensures
            r@.map_values(|p: (String, SymbolTableEntry)| (p.0@, p.1)) == all_entries(self@.scopes),
    {
        let mut out: Vec<(String, SymbolTableEntry)> = Vec::new();
        let n: usize = scope_graph_node_count(&self.graph);
        let mut s: usize = 0;
        while s < n
            invariant
                n == self@.scopes.len(),
                self@.wf(),
                s <= n,
                out@.map_values(|p: (String, SymbolTableEntry)| (p.0@, p.1)) == all_entries(self@.scopes.take(s as int)),
            decreases n - s,
        {
            let table: &ScopeTable = scope_graph_node(&self.graph, s);
            let ghost sc = self@.scopes[s as int];
            assert(scope_view(*table) == sc);
            let ghost base = out@.map_values(|p: (String, SymbolTableEntry)| (p.0@, p.1));
            let mut k: usize = 0;
            while k < table.len()
                invariant
                    k <= table@.len(),
                    scope_view(*table) == sc,
                    out@.map_values(|p: (String, SymbolTableEntry)| (p.0@, p.1)) == base + sc.take(k as int),
                decreases table.len() - k,
            {
                let name: String = table[k].0.clone();
                let ghost before = out@.map_values(|p: (String, SymbolTableEntry)| (p.0@, p.1));
                out.push((name, table[k].1));
                assert(out@.map_values(|p: (String, SymbolTableEntry)| (p.0@, p.1)) =~= before.push(sc[k as int]));
                assert(sc.take(k + 1) =~= sc.take(k as int).push(sc[k as int]));
                k = k + 1;
            }
            assert(sc.take(table@.len() as int) =~= sc);
            assert(self@.scopes.take(s + 1).drop_last() =~= self@.scopes.take(s as int));
            s = s + 1;
        }
        assert(self@.scopes.take(n as int) =~= self@.scopes);
        out
    }

    /// The warnings every declared identifier draws once analysis is over:
    /// scope by scope, in declaration order.
    pub fn mass_warnings(&self) -> (r: Vec<(String, SymbolTableEntry, SymbolWarning)>)
        requires
            self@.wf(),
        ensures
            r@.map_values(|w: (String, SymbolTableEntry, SymbolWarning)| (w.0@, w.1, w.2))
                == all_warnings(self@.scopes),
    {
        let mut out: Vec<(String, SymbolTableEntry, SymbolWarning)> = Vec::new();
        let n: usize = scope_graph_node_count(&self.graph);
        let mut s: usize = 0;
        while s < n
            invariant
                n == self@.scopes.len(),
                self@.wf(),
                s <= n,
                out@.map_values(|w: (String, SymbolTableEntry, SymbolWarning)| (w.0@, w.1, w.2))
                    == all_warnings(self@.scopes.take(s as int)),
            decreases n - s,
        {
            let table: &ScopeTable = scope_graph_node(&self.graph, s);
            let ghost sc = self@.scopes[s as int];
            assert(scope_view(*table) == sc);
            let ghost base = out@.map_values(|w: (String, SymbolTableEntry, SymbolWarning)| (w.0@, w.1, w.2));
            let mut k: usize = 0;
            while k < table.len()
                invariant
                    k <= table@.len(),
                    scope_view(*table) == sc,
                    out@.map_values(|w: (String, SymbolTableEntry, SymbolWarning)| (w.0@, w.1, w.2))
                        == base + scope_warnings(sc.take(k as int)),
                decreases table.len() - k,
            {
                let e: SymbolTableEntry = table[k].1;
                let w: Option<SymbolWarning> = if !e.is_initialized {
                    if e.is_used {
                        Some(SymbolWarning::UsedNotInitialized)
                    } else {
                        Some(SymbolWarning::NeverInitializedOrUsed)
                    }
                } else if !e.is_used {
                    Some(SymbolWarning::InitializedNotUsed)
                } else {
                    None
                };
                assert(sc.take(k + 1).drop_last() =~= sc.take(k as int));
                assert(sc.take(k + 1).last() == sc[k as int]);
                assert(sc[k as int] == (table@[k as int].0@, table@[k as int].1));
                assert(w == entry_warning(e));
                let ghost before = out@.map_values(|w: (String, SymbolTableEntry, SymbolWarning)| (w.0@, w.1, w.2));
                if let Some(wk) = w {
                    let name: String = table[k].0.clone();
                    out.push((name, e, wk));
                    assert(out@.map_values(|w: (String, SymbolTableEntry, SymbolWarning)| (w.0@, w.1, w.2))
                        =~= before.push((sc[k as int].0, e, wk)));
                }
                proof {
                    assert(out@.map_values(|w: (String, SymbolTableEntry, SymbolWarning)| (w.0@, w.1, w.2))
                        =~= base + scope_warnings(sc.take(k + 1)));
                }
                k = k + 1;
            }
            assert(sc.take(table@.len() as int) =~= sc);
            assert(self@.scopes.take(s + 1).drop_last() =~= self@.scopes.take(s as int));
            s = s + 1;
        }
        assert(self@.scopes.take(n as int) =~= self@.scopes);
        out
    }
}

} // verus!
