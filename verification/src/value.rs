use vstd::prelude::*;
use crate::text::str_eq;
use crate::temporal::{Date, DateTime, Duration, Time, ZoneDateTime};

verus! {

/// One entry of a [`ValMap`].
#[derive(Debug)]
pub struct Entry {
    pub key: String,
    pub value: Val,
}

/// A mapping from string keys to typed values. No key occurs twice.
#[derive(Debug)]
pub struct ValMap {
    entries: Vec<Entry>,
}

/// A graph vertex.
#[derive(Debug)]
pub struct Node {
    pub labels: Vec<String>,
    pub properties: ValMap,
    pub element_id: String,
}

/// A graph edge.
#[derive(Debug)]
pub struct Relationship {
    pub type_: String,
    pub properties: ValMap,
    pub element_id: String,
    pub start_node_element_id: String,
    pub end_node_element_id: String,
}

/// A walk through the graph: its nodes in order, and the relationships
/// between each node and the next.
#[derive(Debug)]
pub struct Path {
    pub nodes: Vec<Node>,
    pub relationships: Vec<Relationship>,
}

/// A decoded value: exactly one of the fifteen kinds of the encoding.
#[derive(Debug)]
#[allow(inconsistent_fields)]
pub enum Val {
    Boolean { value: bool },
    Integer { value: i64 },
    /// The numeral as it was written, checked to be a floating-point
    /// number; `str::parse` turns it into a float.
    Float { value: String },
    String { value: String },
    ByteArray { value: Vec<u8> },
    Mapping { value: ValMap },
    List { value: Vec<Val> },
    ZoneDateTime { value: ZoneDateTime },
    DateTime { value: DateTime },
    Time { value: Time },
    Date { value: Date },
    Duration { value: Duration },
    Node { value: Node },
    Relationship { value: Relationship },
    Path { value: Path },
}

/// The mathematical model of a [`Node`].
pub struct NodeView {
    pub labels: Seq<Seq<char>>,
    pub properties: Map<Seq<char>, ValView>,
    pub element_id: Seq<char>,
}

/// The mathematical model of a [`Relationship`].
pub struct RelationshipView {
    pub type_: Seq<char>,
    pub properties: Map<Seq<char>, ValView>,
    pub element_id: Seq<char>,
    pub start_node_element_id: Seq<char>,
    pub end_node_element_id: Seq<char>,
}

/// The mathematical model of a [`Path`].
pub struct PathView {
    pub nodes: Seq<NodeView>,
    pub relationships: Seq<RelationshipView>,
}

/// The mathematical model of a [`Val`].
pub enum ValView {
    Boolean(bool),
    Integer(i64),
    Float(Seq<char>),
    String(Seq<char>),
    ByteArray(Seq<u8>),
    Mapping(Map<Seq<char>, ValView>),
    List(Seq<ValView>),
    ZoneDateTime(ZoneDateTime),
    DateTime(DateTime),
    Time(Time),
    Date(Date),
    Duration(Duration),
    Node(NodeView),
    Relationship(RelationshipView),
    Path(PathView),
}

/// The discriminator under which a value of this kind is written.
pub open spec fn kind_of(v: ValView) -> Seq<char> {
    match v {
        ValView::Boolean(_) => "Boolean"@,
        ValView::Integer(_) => "Integer"@,
        ValView::Float(_) => "Float"@,
        ValView::String(_) => "String"@,
        ValView::ByteArray(_) => "ByteArray"@,
        ValView::Mapping(_) => "Map"@,
        ValView::List(_) => "List"@,
        ValView::ZoneDateTime(_) => "ZoneDateTime"@,
        ValView::DateTime(_) => "DateTime"@,
        ValView::Time(_) => "Time"@,
        ValView::Date(_) => "Date"@,
        ValView::Duration(_) => "Duration"@,
        ValView::Node(_) => "Node"@,
        ValView::Relationship(_) => "Relationship"@,
        ValView::Path(_) => "Path"@,
    }
}

/// The mapping that a sequence of key-value pairs builds when they are
/// inserted one after the other: a later pair replaces an earlier one with
/// the same key.
pub open spec fn pairs_to_map(pairs: Seq<(Seq<char>, ValView)>) -> Map<Seq<char>, ValView>
    decreases pairs.len(),
{
    if pairs.len() == 0 {
        Map::empty()
    } else {
        pairs_to_map(pairs.drop_last()).insert(pairs.last().0, pairs.last().1)
    }
}

/// The strings of a vector, each as its characters.
pub open spec fn strings_view(strings: Seq<String>) -> Seq<Seq<char>> {
    Seq::new(strings.len(), |i: int| strings[i]@)
}

/// The model of a value.
pub open spec fn val_view(v: Val) -> ValView
    decreases v,
{
    match v {
        Val::Boolean { value } => ValView::Boolean(value),
        Val::Integer { value } => ValView::Integer(value),
        Val::Float { value } => ValView::Float(value@),
        Val::String { value } => ValView::String(value@),
        Val::ByteArray { value } => ValView::ByteArray(value@),
        Val::Mapping { value } => ValView::Mapping(map_view(value)),
        Val::List { value } => ValView::List(vals_view(value)),
        Val::ZoneDateTime { value } => ValView::ZoneDateTime(value),
        Val::DateTime { value } => ValView::DateTime(value),
        Val::Time { value } => ValView::Time(value),
        Val::Date { value } => ValView::Date(value),
        Val::Duration { value } => ValView::Duration(value),
        Val::Node { value } => ValView::Node(node_view(value)),
        Val::Relationship { value } => ValView::Relationship(relationship_view(value)),
        Val::Path { value } => ValView::Path(path_view(value)),
    }
}

/// The models of a vector of values, in order.
pub open spec fn vals_view(vals: Vec<Val>) -> Seq<ValView>
    decreases vals,
{
    Seq::new(
        vals.len() as nat,
        |i: int|
            if 0 <= i < vals.len() {
                val_view(vals[i])
            } else {
                arbitrary()
            },
    )
}

/// The entries of a mapping as pairs of a key and a model, in order.
pub open spec fn entries_view(entries: Vec<Entry>) -> Seq<(Seq<char>, ValView)>
    decreases entries,
{
    Seq::new(
        entries.len() as nat,
        |i: int|
            if 0 <= i < entries.len() {
                (entries[i].key@, val_view(entries[i].value))
            } else {
                arbitrary()
            },
    )
}

/// The mapping that a [`ValMap`] stands for.
pub closed spec fn map_view(m: ValMap) -> Map<Seq<char>, ValView>
    decreases m,
{
    pairs_to_map(entries_view(m.entries))
}

/// The model of a node.
pub open spec fn node_view(node: Node) -> NodeView
    decreases node,
{
    NodeView {
        labels: strings_view(node.labels@),
        properties: map_view(node.properties),
        element_id: node.element_id@,
    }
}

/// The model of a relationship.
pub open spec fn relationship_view(rel: Relationship) -> RelationshipView
    decreases rel,
{
    RelationshipView {
        type_: rel.type_@,
        properties: map_view(rel.properties),
        element_id: rel.element_id@,
        start_node_element_id: rel.start_node_element_id@,
        end_node_element_id: rel.end_node_element_id@,
    }
}

/// The models of a vector of nodes, in order.
pub open spec fn nodes_view(nodes: Vec<Node>) -> Seq<NodeView>
    decreases nodes,
{
    Seq::new(
        nodes.len() as nat,
        |i: int|
            if 0 <= i < nodes.len() {
                node_view(nodes[i])
            } else {
                arbitrary()
            },
    )
}

/// The models of a vector of relationships, in order.
pub open spec fn relationships_view(rels: Vec<Relationship>) -> Seq<RelationshipView>
    decreases rels,
{
    Seq::new(
        rels.len() as nat,
        |i: int|
            if 0 <= i < rels.len() {
                relationship_view(rels[i])
            } else {
                arbitrary()
            },
    )
}

/// The model of a path.
pub open spec fn path_view(path: Path) -> PathView
    decreases path,
{
    PathView {
        nodes: nodes_view(path.nodes),
        relationships: relationships_view(path.relationships),
    }
}

/// Whether no key occurs twice among the pairs.
pub open spec fn distinct_keys(pairs: Seq<(Seq<char>, ValView)>) -> bool {
    forall|i: int, j: int|
        0 <= i < j < pairs.len() ==> (#[trigger] pairs[i]).0 != (#[trigger] pairs[j]).0
}

/// Whether one of the pairs has the key `key`.
pub open spec fn has_key(pairs: Seq<(Seq<char>, ValView)>, key: Seq<char>) -> bool {
    exists|i: int| 0 <= i < pairs.len() && (#[trigger] pairs[i]).0 == key
}

/// The mapping built from pairs holds exactly their keys; where no key
/// occurs twice it gives each key the value paired with it, and has as many
/// keys as there are pairs.
pub proof fn lemma_pairs_to_map(pairs: Seq<(Seq<char>, ValView)>)
    ensures
        forall|k: Seq<char>| #[trigger] pairs_to_map(pairs).contains_key(k) <==> has_key(pairs, k),
        distinct_keys(pairs) ==> forall|i: int|
            0 <= i < pairs.len() ==> pairs_to_map(pairs)[(#[trigger] pairs[i]).0] == pairs[i].1,
        pairs_to_map(pairs).dom().finite(),
        distinct_keys(pairs) ==> pairs_to_map(pairs).dom().len() == pairs.len(),
    decreases pairs.len(),
{
    if pairs.len() > 0 {
        let front = pairs.drop_last();
        let last = pairs.last();
        lemma_pairs_to_map(front);
        assert forall|k: Seq<char>| #[trigger]
            pairs_to_map(pairs).contains_key(k) <==> has_key(pairs, k) by {
            if has_key(pairs, k) {
                let i = choose|i: int| 0 <= i < pairs.len() && (#[trigger] pairs[i]).0 == k;
                if i < pairs.len() - 1 {
                    assert(front[i].0 == k);
                    assert(has_key(front, k));
                }
            }
            if pairs_to_map(pairs).contains_key(k) {
                if k == last.0 {
                    assert(pairs[pairs.len() - 1].0 == k);
                } else {
                    assert(has_key(front, k));
                    let i = choose|i: int| 0 <= i < front.len() && (#[trigger] front[i]).0 == k;
                    assert(pairs[i].0 == k);
                }
            }
        }
        if distinct_keys(pairs) {
            assert(distinct_keys(front)) by {
                assert forall|i: int, j: int| 0 <= i < j < front.len() implies (#[trigger] front[i]).0
                    != (#[trigger] front[j]).0 by {
                    assert(pairs[i].0 != pairs[j].0);
                }
            }
            assert(!has_key(front, last.0)) by {
                if has_key(front, last.0) {
                    let i = choose|i: int| 0 <= i < front.len() && (#[trigger] front[i]).0 == last.0;
                    assert(pairs[i].0 != pairs[pairs.len() - 1].0);
                }
            }
            assert forall|i: int| 0 <= i < pairs.len() implies pairs_to_map(pairs)[(#[trigger] pairs[i]).0]
                == pairs[i].1 by {
                if i < pairs.len() - 1 {
                    assert(front[i] == pairs[i]);
                    assert(pairs[i].0 != pairs[pairs.len() - 1].0);
                }
            }
        }
    }
}

/// Replacing the value of a key that is present changes the mapping as an
/// insertion under that key does, and leaves the keys distinct.
pub proof fn lemma_replace_pair(pairs: Seq<(Seq<char>, ValView)>, i: int, pair: (Seq<char>, ValView))
    requires
        distinct_keys(pairs),
        0 <= i < pairs.len(),
        pairs[i].0 == pair.0,
    ensures
        distinct_keys(pairs.update(i, pair)),
        pairs_to_map(pairs.update(i, pair)) == pairs_to_map(pairs).insert(pair.0, pair.1),
{
    let after = pairs.update(i, pair);
    assert forall|a: int, b: int| 0 <= a < b < after.len() implies (#[trigger] after[a]).0
        != (#[trigger] after[b]).0 by {
        assert(pairs[a].0 != pairs[b].0);
    }
    lemma_pairs_to_map(pairs);
    lemma_pairs_to_map(after);
    let target = pairs_to_map(pairs).insert(pair.0, pair.1);
    assert forall|k: Seq<char>| #[trigger] pairs_to_map(after).contains_key(k) <==> target.contains_key(k) by {
        if has_key(after, k) {
            let a = choose|a: int| 0 <= a < after.len() && (#[trigger] after[a]).0 == k;
            assert(pairs[a].0 == k);
        }
        if has_key(pairs, k) {
            let a = choose|a: int| 0 <= a < pairs.len() && (#[trigger] pairs[a]).0 == k;
            assert(after[a].0 == k);
        }
        if k == pair.0 {
            assert(after[i].0 == k);
        }
    }
    assert forall|k: Seq<char>| #[trigger] pairs_to_map(after).contains_key(k) implies pairs_to_map(after)[k]
        == target[k] by {
        let a = choose|a: int| 0 <= a < after.len() && (#[trigger] after[a]).0 == k;
        assert(pairs_to_map(after)[after[a].0] == after[a].1);
        if a != i {
            assert(pairs[a].0 != pairs[i].0);
            assert(pairs_to_map(pairs)[pairs[a].0] == pairs[a].1);
        }
    }
    assert(pairs_to_map(after) =~= target);
}

/// Whether each end of the relationship is one of the two nodes.
pub open spec fn joins(rel: RelationshipView, a: NodeView, b: NodeView) -> bool {
    (rel.start_node_element_id == a.element_id || rel.start_node_element_id == b.element_id) && (
    rel.end_node_element_id == a.element_id || rel.end_node_element_id == b.element_id)
}

/// Whether the path hangs together: it has one node more than it has
/// relationships, and each relationship joins the node before it and the
/// node after it, in either direction.
pub open spec fn connected(path: PathView) -> bool {
    path.nodes.len() == path.relationships.len() + 1 && forall|i: int|
        0 <= i < path.relationships.len() ==> joins(
            #[trigger] path.relationships[i],
            path.nodes[i],
            path.nodes[i + 1],
        )
}

impl Path {
    /// A path has one node more than it has relationships.
    pub open spec fn well_formed(self) -> bool {
        self.nodes.len() == self.relationships.len() + 1
    }

    /// Whether each relationship of the path joins the two nodes next to it.
    pub fn is_connected(&self) -> (r: bool)
        ensures
            r == connected(path_view(*self)),
    {
        let n: usize = self.relationships.len();
        if n == usize::MAX || self.nodes.len() != n + 1 {
            return false;
        }
        let ghost model = path_view(*self);
        let mut i: usize = 0;
        while i < n
            invariant
                i <= n,
                n == self.relationships.len(),
                self.nodes.len() == n + 1,
                model == path_view(*self),
                forall|k: int|
                    0 <= k < i ==> joins(
                        #[trigger] model.relationships[k],
                        model.nodes[k],
                        model.nodes[k + 1],
                    ),
            decreases n - i,
        {
            let rel = &self.relationships[i];
            let a = &self.nodes[i];
            let b = &self.nodes[i + 1];
            let start: &str = rel.start_node_element_id.as_str();
            let end: &str = rel.end_node_element_id.as_str();
            let joined: bool = (str_eq(start, a.element_id.as_str()) || str_eq(
                start,
                b.element_id.as_str(),
            )) && (str_eq(end, a.element_id.as_str()) || str_eq(end, b.element_id.as_str()));
            assert(joined == joins(
                model.relationships[i as int],
                model.nodes[i as int],
                model.nodes[i + 1],
            ));
            if !joined {
                return false;
            }
            i += 1;
        }
        true
    }
}

impl ValMap {
    /// No key occurs twice among the entries.
    #[verifier::type_invariant]
    pub closed spec fn unique_keys(self) -> bool {
        distinct_keys(entries_view(self.entries))
    }

    /// The mapping this value stands for.
    pub open spec fn view(self) -> Map<Seq<char>, ValView> {
        map_view(self)
    }

    /// The empty mapping.
    pub fn new() -> (r: ValMap)
        ensures
            r.view() == Map::<Seq<char>, ValView>::empty(),
    {
        let r = ValMap { entries: Vec::new() };
        assert(entries_view(r.entries) =~= Seq::empty());
        r
    }

    /// The number of keys.
    pub fn len(&self) -> (r: usize)
        ensures
            self.view().dom().finite(),
            r == self.view().dom().len(),
    {
        proof {
            use_type_invariant(self);
            lemma_pairs_to_map(entries_view(self.entries));
        }
        self.entries.len()
    }

    /// The entries of the mapping, each key once.
    pub fn entries(&self) -> (r: &Vec<Entry>)
        ensures
            distinct_keys(entries_view(*r)),
            pairs_to_map(entries_view(*r)) == self.view(),
    {
        proof {
            use_type_invariant(self);
        }
        &self.entries
    }

    /// The value stored under `key`, if the key is present.
    pub fn get(&self, key: &str) -> (r: Option<&Val>)
        ensures
            match r {
                Some(v) => self.view().contains_key(key@) && self.view()[key@] == val_view(*v),
                None => !self.view().contains_key(key@),
            },
    {
        proof {
            use_type_invariant(self);
            lemma_pairs_to_map(entries_view(self.entries));
        }
        let ghost pairs = entries_view(self.entries);
        let mut i: usize = 0;
        while i < self.entries.len()
            invariant
                i <= self.entries.len(),
                pairs == entries_view(self.entries),
                forall|k: int| 0 <= k < i ==> (#[trigger] pairs[k]).0 != key@,
            decreases self.entries.len() - i,
        {
            if str_eq(self.entries[i].key.as_str(), key) {
                proof {
                    use_type_invariant(self);
                    lemma_pairs_to_map(pairs);
                    assert(pairs[i as int].0 == key@);
                }
                return Some(&self.entries[i].value);
            }
            i += 1;
        }
        None
    }

    /// The mapping with `value` stored under `key`, in place of what was
    /// stored there before.
    pub fn insert(self, key: String, value: Val) -> (r: ValMap)
        ensures
            r.view() == self.view().insert(key@, val_view(value)),
    {
        proof {
            use_type_invariant(&self);
        }
        let mut entries = self.entries;
        let ghost before = entries_view(entries);
        let n: usize = entries.len();
        let mut i: usize = 0;
        let mut found: bool = false;
        while i < n && !found
            invariant
                i <= n,
                n == entries.len(),
                before == entries_view(entries),
                forall|k: int| 0 <= k < i ==> (#[trigger] before[k]).0 != key@,
                found ==> i < n && before[i as int].0 == key@,
            decreases
                    if found {
                        0
                    } else {
                        n - i + 1
                    },
        {
            if str_eq(entries[i].key.as_str(), key.as_str()) {
                found = true;
            } else {
                i += 1;
            }
        }
        let ghost pair = (key@, val_view(value));
        if found {
            entries.set(i, Entry { key, value });
            proof {
                assert(entries_view(entries) =~= before.update(i as int, pair));
                lemma_replace_pair(before, i as int, pair);
            }
        } else {
            entries.push(Entry { key, value });
            proof {
                let after = entries_view(entries);
                assert(after =~= before.push(pair));
                assert(after.drop_last() =~= before);
                assert(distinct_keys(after));
            }
        }
        ValMap { entries }
    }
}

/// A copy of a vector of strings.
pub fn copy_strings(strings: &Vec<String>) -> (r: Vec<String>)
    ensures
        strings_view(r@) == strings_view(strings@),
{
    let mut out: Vec<String> = Vec::new();
    let mut i: usize = 0;
    while i < strings.len()
        invariant
            i <= strings.len(),
            out@.len() == i,
            forall|k: int| 0 <= k < i ==> (#[trigger] out@[k])@ == strings@[k]@,
        decreases strings.len() - i,
    {
        out.push(strings[i].clone());
        i += 1;
    }
    assert(strings_view(out@) =~= strings_view(strings@));
    out
}

/// A copy of a vector of bytes.
pub fn copy_bytes(bytes: &Vec<u8>) -> (r: Vec<u8>)
    ensures
        r@ == bytes@,
{
    let mut out: Vec<u8> = Vec::new();
    let mut i: usize = 0;
    while i < bytes.len()
        invariant
            i <= bytes.len(),
            out@ == bytes@.take(i as int),
        decreases bytes.len() - i,
    {
        out.push(bytes[i]);
        assert(out@ =~= bytes@.take(i + 1));
        i += 1;
    }
    assert(bytes@.take(bytes.len() as int) =~= bytes@);
    out
}

/// A copy of a value, with the same model.
pub fn copy_val(v: &Val) -> (r: Val)
    ensures
        val_view(r) == val_view(*v),
    decreases v,
{
    match v {
        Val::Boolean { value } => Val::Boolean { value: *value },
        Val::Integer { value } => Val::Integer { value: *value },
        Val::Float { value } => Val::Float { value: value.clone() },
        Val::String { value } => Val::String { value: value.clone() },
        Val::ByteArray { value } => Val::ByteArray { value: copy_bytes(value) },
        Val::Mapping { value } => Val::Mapping { value: copy_map(value) },
        Val::List { value } => Val::List { value: copy_vals(value) },
        Val::ZoneDateTime { value } => Val::ZoneDateTime { value: *value },
        Val::DateTime { value } => Val::DateTime { value: *value },
        Val::Time { value } => Val::Time { value: *value },
        Val::Date { value } => Val::Date { value: *value },
        Val::Duration { value } => Val::Duration { value: *value },
        Val::Node { value } => Val::Node { value: copy_node(value) },
        Val::Relationship { value } => Val::Relationship { value: copy_relationship(value) },
        Val::Path { value } => Val::Path { value: copy_path(value) },
    }
}

/// A copy of a vector of values, with the same models in the same order.
pub fn copy_vals(vals: &Vec<Val>) -> (r: Vec<Val>)
    ensures
        vals_view(r) == vals_view(*vals),
    decreases vals,
{
    let mut out: Vec<Val> = Vec::new();
    let mut i: usize = 0;
    while i < vals.len()
        invariant
            i <= vals.len(),
            out@.len() == i,
            forall|k: int| 0 <= k < i ==> val_view(#[trigger] out@[k]) == val_view(vals@[k]),
        decreases vals.len() - i,
    {
        out.push(copy_val(&vals[i]));
        i += 1;
    }
    assert(vals_view(out) =~= vals_view(*vals));
    out
}

/// A copy of the entries of a mapping.
fn copy_entries(entries: &Vec<Entry>) -> (r: Vec<Entry>)
    ensures
        entries_view(r) == entries_view(*entries),
    decreases entries,
{
    let mut out: Vec<Entry> = Vec::new();
    let mut i: usize = 0;
    while i < entries.len()
        invariant
            i <= entries.len(),
            out@.len() == i,
            forall|k: int|
                0 <= k < i ==> (#[trigger] out@[k]).key@ == entries@[k].key@ && val_view(
                    out@[k].value,
                ) == val_view(entries@[k].value),
        decreases entries.len() - i,
    {
        let entry = &entries[i];
        out.push(Entry { key: entry.key.clone(), value: copy_val(&entry.value) });
        i += 1;
    }
    assert(entries_view(out) =~= entries_view(*entries));
    out
}

/// A copy of a mapping, with the same model.
pub fn copy_map(m: &ValMap) -> (r: ValMap)
    ensures
        r.view() == m.view(),
    decreases m,
{
    proof {
        use_type_invariant(m);
    }
    ValMap { entries: copy_entries(&m.entries) }
}

/// A copy of a node, with the same model.
pub fn copy_node(node: &Node) -> (r: Node)
    ensures
        node_view(r) == node_view(*node),
    decreases node,
{
    Node {
        labels: copy_strings(&node.labels),
        properties: copy_map(&node.properties),
        element_id: node.element_id.clone(),
    }
}

/// A copy of a relationship, with the same model.
pub fn copy_relationship(rel: &Relationship) -> (r: Relationship)
    ensures
        relationship_view(r) == relationship_view(*rel),
    decreases rel,
{
    Relationship {
        type_: rel.type_.clone(),
        properties: copy_map(&rel.properties),
        element_id: rel.element_id.clone(),
        start_node_element_id: rel.start_node_element_id.clone(),
        end_node_element_id: rel.end_node_element_id.clone(),
    }
}

/// A copy of a path, with the same model.
pub fn copy_path(path: &Path) -> (r: Path)
    ensures
        path_view(r) == path_view(*path),
        path.well_formed() ==> r.well_formed(),
    decreases path,
{
    let mut nodes: Vec<Node> = Vec::new();
    let mut i: usize = 0;
    while i < path.nodes.len()
        invariant
            i <= path.nodes.len(),
            nodes@.len() == i,
            forall|k: int| 0 <= k < i ==> node_view(#[trigger] nodes@[k]) == node_view(path.nodes@[k]),
        decreases path.nodes.len() - i,
    {
        nodes.push(copy_node(&path.nodes[i]));
        i += 1;
    }
    let mut relationships: Vec<Relationship> = Vec::new();
    let mut j: usize = 0;
    while j < path.relationships.len()
        invariant
            j <= path.relationships.len(),
            relationships@.len() == j,
            forall|k: int|
                0 <= k < j ==> relationship_view(#[trigger] relationships@[k]) == relationship_view(
                    path.relationships@[k],
                ),
        decreases path.relationships.len() - j,
    {
        relationships.push(copy_relationship(&path.relationships[j]));
        j += 1;
    }
    assert(nodes_view(nodes) =~= nodes_view(path.nodes));
    assert(relationships_view(relationships) =~= relationships_view(path.relationships));
    Path { nodes, relationships }
}

impl Val {
    /// The discriminator under which this kind of value is written.
    pub fn kind(&self) -> (r: &'static str)
        ensures
            r@ == kind_of(val_view(*self)),
    {
        match self {
            Val::Boolean { .. } => "Boolean",
            Val::Integer { .. } => "Integer",
            Val::Float { .. } => "Float",
            Val::String { .. } => "String",
            Val::ByteArray { .. } => "ByteArray",
            Val::Mapping { .. } => "Map",
            Val::List { .. } => "List",
            Val::ZoneDateTime { .. } => "ZoneDateTime",
            Val::DateTime { .. } => "DateTime",
            Val::Time { .. } => "Time",
            Val::Date { .. } => "Date",
            Val::Duration { .. } => "Duration",
            Val::Node { .. } => "Node",
            Val::Relationship { .. } => "Relationship",
            Val::Path { .. } => "Path",
        }
    }
}

impl Clone for Val {
    fn clone(&self) -> (r: Self)
        ensures
            val_view(r) == val_view(*self),
    {
        copy_val(self)
    }
}

impl Clone for ValMap {
    fn clone(&self) -> (r: Self)
        ensures
            r.view() == self.view(),
    {
        copy_map(self)
    }
}

impl Clone for Node {
    fn clone(&self) -> (r: Self)
        ensures
            node_view(r) == node_view(*self),
    {
        copy_node(self)
    }
}

impl Clone for Relationship {
    fn clone(&self) -> (r: Self)
        ensures
            relationship_view(r) == relationship_view(*self),
    {
        copy_relationship(self)
    }
}

impl Clone for Path {
    fn clone(&self) -> (r: Self)
        ensures
            path_view(r) == path_view(*self),
    {
        copy_path(self)
    }
}

} // verus!
