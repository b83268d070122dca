//! Metadata of a file read from its footer alone: a flat schema, and statistics by column.

use vstd::prelude::*;

use crate::dtype::pointee;
use crate::dtype::DType;
use crate::dtype::NamedField;
use crate::duckdb::copy::find_size;
use crate::duckdb::copy::size_at;
use crate::duckdb::copy::FieldSize;
use crate::duckdb::copy_stats::exact_count;
use crate::duckdb::copy_stats::exact_positive;
use crate::duckdb::copy_stats::exact_u64;
use crate::duckdb::copy_stats::opt_text;
use crate::duckdb::copy_stats::scalar_value_to_stats_string;
use crate::duckdb::copy_stats::stats_text;
use crate::duckdb::copy_stats::ConvertedScalar;
use crate::duckdb::path_key::path_model;
use crate::duckdb::path_key::PathField;
use crate::duckdb::path_key::PathModel;
use crate::stats::Precision;
use crate::stats::ScalarValue;
use crate::stats::StatsSet;

verus! {

/// A node of a flat schema, in which each node is followed by its children's nodes.
#[derive(Debug, PartialEq)]
pub struct SchemaNode {
    pub name: String,
    /// Empty for the root, else the name of a database type, such as `INTEGER`.
    pub duckdb_type: String,
    pub num_children: u64,
}

/// What the type of a schema node is the name of.
#[derive(Debug, PartialEq)]
pub enum NodeType<'a> {
    /// Nothing: the root has no type.
    Root,
    /// A type of the file.
    Of(&'a DType),
    /// A struct of a key and a value, neither null.
    KeyValue(&'a DType, &'a DType),
}

/// A schema node whose type has yet to be named.
#[derive(Debug, PartialEq)]
pub struct PlannedNode<'a> {
    pub name: &'a str,
    pub ty: NodeType<'a>,
    pub num_children: u64,
}

/// What a schema node stands for.
pub struct NodeModel {
    pub name: Seq<char>,
    pub ty: TypeModel,
    pub num_children: nat,
}

/// What the type of a schema node is the name of.
pub enum TypeModel {
    Root,
    Of(DType),
    KeyValue(DType, DType),
}

impl<'a> View for PlannedNode<'a> {
    type V = NodeModel;

    open spec fn view(&self) -> NodeModel {
        NodeModel {
            name: self.name@,
            ty: match self.ty {
                NodeType::Root => TypeModel::Root,
                NodeType::Of(dtype) => TypeModel::Of(*dtype),
                NodeType::KeyValue(key, value) => TypeModel::KeyValue(*key, *value),
            },
            num_children: self.num_children as nat,
        }
    }
}

/// The nodes of a plan.
pub open spec fn plan_model<'a>(plan: Seq<PlannedNode<'a>>) -> Seq<NodeModel> {
    plan.map_values(|n: PlannedNode<'a>| n@)
}

/// The nodes of a column: its own and then its children's. The entries of a map are a node of
/// their own, with a key and a value.
pub open spec fn column_nodes(name: Seq<char>, dtype: DType) -> Seq<NodeModel>
    decreases dtype, 0nat,
{
    match dtype {
        DType::Struct(fields, _) => seq![
            NodeModel { name, ty: TypeModel::Of(dtype), num_children: fields@.len() },
        ] + fields_nodes(fields, fields@.len()),
        DType::List(elem, _) => seq![
            NodeModel { name, ty: TypeModel::Of(dtype), num_children: 1 },
        ] + column_nodes("element"@, *elem),
        DType::FixedSizeList(elem, _, _) => seq![
            NodeModel { name, ty: TypeModel::Of(dtype), num_children: 1 },
        ] + column_nodes("element"@, *elem),
        DType::Mapping(key, value, _) => seq![
            NodeModel { name, ty: TypeModel::Of(dtype), num_children: 1 },
            NodeModel {
                name: "key_value"@,
                ty: TypeModel::KeyValue(*key, *value),
                num_children: 2,
            },
        ] + column_nodes("key"@, *key) + column_nodes("value"@, *value),
        _ => seq![NodeModel { name, ty: TypeModel::Of(dtype), num_children: 0 }],
    }
}

/// The nodes of the first `n` fields.
pub open spec fn fields_nodes(fields: Vec<NamedField>, n: nat) -> Seq<NodeModel>
    decreases fields, n,
{
    if n == 0 || n > fields@.len() {
        seq![]
    } else {
        fields_nodes(fields, (n - 1) as nat) + column_nodes(
            fields@[n - 1].name@,
            *fields@[n - 1].dtype,
        )
    }
}

/// The nodes of a file's schema: a root, and below it the file's columns. A file that holds no
/// struct has one column, named `value`.
pub open spec fn schema_nodes(dtype: DType) -> Seq<NodeModel> {
    match dtype {
        DType::Struct(fields, _) => seq![
            NodeModel {
                name: "vortex_schema"@,
                ty: TypeModel::Root,
                num_children: fields@.len(),
            },
        ] + fields_nodes(fields, fields@.len()),
        _ => seq![
            NodeModel { name: "vortex_schema"@, ty: TypeModel::Root, num_children: 1 },
        ] + column_nodes("value"@, dtype),
    }
}

fn push_node<'a>(out: &mut Vec<PlannedNode<'a>>, name: &'a str, ty: NodeType<'a>, num_children: u64)
    ensures
        plan_model(final(out)@) == plan_model(old(out)@).push(
            (PlannedNode { name, ty, num_children })@,
        ),
{
    let node = PlannedNode { name, ty, num_children };
    out.push(node);
    assert(plan_model(out@) =~= plan_model(old(out)@).push(node@));
}

/// Plans the nodes of a column.
pub fn push_schema_node<'a>(out: &mut Vec<PlannedNode<'a>>, name: &'a str, dtype: &'a DType)
    ensures
        plan_model(final(out)@) == plan_model(old(out)@) + column_nodes(name@, *dtype),
    decreases *dtype, 0nat,
{
    let ghost before = plan_model(out@);
    match dtype {
        DType::Struct(fields, _) => {
            push_node(out, name, NodeType::Of(dtype), fields.len() as u64);
            push_field_nodes(out, fields);
            assert(plan_model(out@) =~= before + column_nodes(name@, *dtype));
        },
        DType::List(elem, _) => {
            push_node(out, name, NodeType::Of(dtype), 1);
            push_schema_node(out, "element", elem);
            assert(plan_model(out@) =~= before + column_nodes(name@, *dtype));
        },
        DType::FixedSizeList(elem, _, _) => {
            push_node(out, name, NodeType::Of(dtype), 1);
            push_schema_node(out, "element", elem);
            assert(plan_model(out@) =~= before + column_nodes(name@, *dtype));
        },
        DType::Mapping(key, value, _) => {
            push_node(out, name, NodeType::Of(dtype), 1);
            push_node(out, "key_value", NodeType::KeyValue(key, value), 2);
            push_schema_node(out, "key", key);
            push_schema_node(out, "value", value);
            assert(plan_model(out@) =~= before + column_nodes(name@, *dtype));
        },
        _ => {
            push_node(out, name, NodeType::Of(dtype), 0);
            assert(plan_model(out@) =~= before + column_nodes(name@, *dtype));
        },
    }
}

fn push_field_nodes<'a>(out: &mut Vec<PlannedNode<'a>>, fields: &'a Vec<NamedField>)
    ensures
        plan_model(final(out)@) == plan_model(old(out)@) + fields_nodes(*fields, fields@.len()),
    decreases *fields, 0nat,
{
    let ghost before = plan_model(out@);
    assert(before + fields_nodes(*fields, 0) =~= before);
    for i in 0..fields.len()
        invariant
            before == plan_model(old(out)@),
            plan_model(out@) == before + fields_nodes(*fields, i as nat),
    {
        push_schema_node(out, fields[i].name.as_str(), &fields[i].dtype);
        assert(plan_model(out@) =~= before + fields_nodes(*fields, (i + 1) as nat));
    }
}

/// Plans the schema of a file: the nodes in order, whose types are then to be named.
pub fn plan_schema<'a>(dtype: &'a DType) -> (r: Vec<PlannedNode<'a>>)
    ensures
        plan_model(r@) == schema_nodes(*dtype),
{
    let mut out: Vec<PlannedNode<'a>> = Vec::new();
    match dtype {
        DType::Struct(fields, _) => {
            push_node(&mut out, "vortex_schema", NodeType::Root, fields.len() as u64);
            push_field_nodes(&mut out, fields);
        },
        _ => {
            push_node(&mut out, "vortex_schema", NodeType::Root, 1);
            push_schema_node(&mut out, "value", dtype);
        },
    }
    assert(plan_model(out@) =~= schema_nodes(*dtype));
    out
}

/// Whether a schema is the one planned, with its types named as given. The root has no type.
pub open spec fn schema_is(
    schema: Seq<SchemaNode>,
    nodes: Seq<NodeModel>,
    type_names: Seq<Seq<char>>,
) -> bool {
    &&& schema.len() == nodes.len()
    &&& type_names.len() + 1 == nodes.len()
    &&& forall|i: int|
        0 <= i < schema.len() ==> {
            &&& (#[trigger] schema[i]).name@ == nodes[i].name
            &&& schema[i].num_children == nodes[i].num_children
            &&& schema[i].duckdb_type@ == (if i == 0 {
                seq![]
            } else {
                type_names[i - 1]
            })
        }
}

/// The first error among results, if any.
pub open spec fn first_error<T, E>(results: Seq<Result<T, E>>) -> Option<E>
    decreases results.len(),
{
    if results.len() == 0 {
        None
    } else {
        match results[0] {
            Err(e) => Some(e),
            Ok(_) => first_error(results.skip(1)),
        }
    }
}

/// The texts of results without an error.
pub open spec fn ok_texts<E>(results: Seq<Result<String, E>>) -> Seq<Seq<char>> {
    results.map_values(|r: Result<String, E>| r->Ok_0@)
}

/// The flat schema of a file. `type_names` are the outcomes of naming the types of the planned
/// nodes after the root, in order; the first that failed is the error.
pub fn build_schema<E>(dtype: &DType, type_names: Vec<Result<String, E>>) -> (r: Result<
    Vec<SchemaNode>,
    E,
>)
    requires
        type_names@.len() + 1 == schema_nodes(*dtype).len(),
    ensures
        match first_error(type_names@) {
            Some(e) => r == Err::<Vec<SchemaNode>, E>(e),
            None => r matches Ok(schema) && schema_is(
                schema@,
                schema_nodes(*dtype),
                ok_texts(type_names@),
            ),
        },
        r is Ok <==> forall|i: int| 0 <= i < type_names@.len() ==> (#[trigger] type_names@[i]) is Ok,
        r matches Ok(schema) ==> {
            let nodes = schema_nodes(*dtype);
            &&& schema@.len() == nodes.len()
            &&& schema@[0].duckdb_type@.len() == 0
            &&& forall|i: int|
                0 <= i < nodes.len() ==> (#[trigger] schema@[i]).name@ == nodes[i].name
                    && schema@[i].num_children == nodes[i].num_children
            &&& forall|i: int|
                1 <= i < nodes.len() ==> (#[trigger] schema@[i]).duckdb_type@
                    == type_names@[i - 1]->Ok_0@
        },
{
    proof {
        law_first_error_comes_first(type_names@, 0);
    }
    let plan = plan_schema(dtype);
    let ghost nodes = schema_nodes(*dtype);
    let ghost names = type_names@;
    let mut out: Vec<SchemaNode> = Vec::new();
    assert(plan_model(plan@).len() == plan@.len());
    assert(plan@[0]@ == plan_model(plan@)[0]);
    out.push(
        SchemaNode {
            name: plan[0].name.to_owned(),
            duckdb_type: String::new(),
            num_children: plan[0].num_children,
        },
    );
    assert(names.skip(0) =~= names);
    for outcome in it: type_names
        invariant
            it.seq() == names,
            names == type_names@,
            nodes == plan_model(plan@),
            nodes.len() == plan@.len(),
            names.len() + 1 == nodes.len(),
            out@.len() == it.index() + 1,
            first_error(names) == first_error(names.skip(it.index() as int)),
            forall|i: int|
                0 <= i < out@.len() ==> {
                    &&& (#[trigger] out@[i]).name@ == nodes[i].name
                    &&& out@[i].num_children == nodes[i].num_children
                    &&& out@[i].duckdb_type@ == (if i == 0 {
                        seq![]
                    } else {
                        ok_texts(names)[i - 1]
                    })
                },
    {
        let ghost k = it.index() as int;
        assert(outcome == names.skip(k)[0]);
        assert(names.skip(k).skip(1) =~= names.skip(k + 1));
        match outcome {
            Ok(duckdb_type) => {
                let at: usize = out.len();
                assert(plan@[at as int]@ == nodes[at as int]);
                assert(ok_texts(names)[k] == duckdb_type@);
                out.push(
                    SchemaNode {
                        name: plan[at].name.to_owned(),
                        duckdb_type,
                        num_children: plan[at].num_children,
                    },
                );
            },
            Err(e) => return Err(e),
        }
    }
    assert(names.skip(names.len() as int).len() == 0);
    Ok(out)
}

/// The number of nodes without children.
pub open spec fn leaf_count(nodes: Seq<NodeModel>) -> nat
    decreases nodes.len(),
{
    if nodes.len() == 0 {
        0
    } else {
        leaf_count(nodes.drop_last()) + (if nodes.last().num_children == 0 {
            1nat
        } else {
            0
        })
    }
}

/// The numbers of children as they stand in a schema.
pub open spec fn leaf_total(schema: Seq<SchemaNode>) -> nat
    decreases schema.len(),
{
    if schema.len() <= 1 {
        0
    } else {
        leaf_total(schema.drop_last()) + (if schema.last().num_children == 0 {
            1nat
        } else {
            0
        })
    }
}

/// The ids of the leaf columns of a schema: its nodes without children after the root, numbered
/// from 0 in order.
pub fn leaf_column_ids(schema: &[SchemaNode]) -> (r: Vec<u64>)
    ensures
        r@ == Seq::new(leaf_total(schema@), |i: int| i as u64),
{
    let mut next: u64 = 0;
    let mut ids: Vec<u64> = Vec::new();
    if schema.len() == 0 {
        assert(ids@ =~= Seq::new(leaf_total(schema@), |i: int| i as u64));
        return ids;
    }
    for i in 1..schema.len()
        invariant
            1 <= i <= schema@.len(),
            next == leaf_total(schema@.take(i as int)),
            next < i,
            ids@ == Seq::new(next as nat, |k: int| k as u64),
    {
        assert(schema@.take(i + 1).drop_last() =~= schema@.take(i as int));
        if schema[i].num_children == 0 {
            ids.push(next);
            next += 1;
            assert(ids@ =~= Seq::new(next as nat, |k: int| k as u64));
        }
    }
    assert(schema@.take(schema@.len() as int) =~= schema@);
    ids
}

/// Whether a type has columns below it.
pub open spec fn nested(dtype: DType) -> bool {
    dtype is Struct || dtype is List || dtype is FixedSizeList || dtype is Mapping
}

/// Whether a type has columns below it.
pub fn is_nested_container(dtype: &DType) -> (r: bool)
    ensures
        r == nested(*dtype),
        r <==> *dtype is Struct || *dtype is List || *dtype is FixedSizeList || *dtype is Mapping,
{
    match dtype {
        DType::Struct(_, _) => true,
        DType::List(_, _) => true,
        DType::FixedSizeList(_, _, _) => true,
        DType::Mapping(_, _, _) => true,
        _ => false,
    }
}

/// The number of nodes in the first `pending` subtrees of a forest that is listed in order.
spec fn walk(nodes: Seq<NodeModel>, pending: nat) -> nat
    decreases nodes.len(),
{
    if pending == 0 || nodes.len() == 0 {
        0
    } else {
        1 + walk(nodes.skip(1), (pending - 1 + nodes[0].num_children) as nat)
    }
}

/// Whether the list holds `pending` whole subtrees.
spec fn holds_subtrees(nodes: Seq<NodeModel>, pending: nat) -> bool
    decreases nodes.len(),
{
    pending == 0 || (nodes.len() > 0 && holds_subtrees(
        nodes.skip(1),
        (pending - 1 + nodes[0].num_children) as nat,
    ))
}

proof fn lemma_pending_bound(nodes: Seq<NodeModel>, pending: nat)
    requires
        holds_subtrees(nodes, pending),
    ensures
        pending <= nodes.len(),
    decreases nodes.len(),
{
    if pending > 0 {
        lemma_pending_bound(nodes.skip(1), (pending - 1 + nodes[0].num_children) as nat);
    }
}

proof fn lemma_column_walk(name: Seq<char>, dtype: DType, rest: Seq<NodeModel>, pending: nat)
    ensures
        walk(column_nodes(name, dtype) + rest, pending + 1) == column_nodes(name, dtype).len()
            + walk(rest, pending),
        holds_subtrees(column_nodes(name, dtype) + rest, pending + 1) == holds_subtrees(
            rest,
            pending,
        ),
        column_nodes(name, dtype).len() > 0,
    decreases dtype, 0nat,
{
    let nodes = column_nodes(name, dtype) + rest;
    match dtype {
        DType::Struct(fields, _) => {
            lemma_fields_walk(fields, fields@.len(), rest, pending);
            assert(nodes.skip(1) =~= fields_nodes(fields, fields@.len()) + rest);
        },
        DType::List(elem, _) => {
            lemma_column_walk("element"@, pointee(elem), rest, pending);
            assert(nodes.skip(1) =~= column_nodes("element"@, pointee(elem)) + rest);
        },
        DType::FixedSizeList(elem, _, _) => {
            lemma_column_walk("element"@, pointee(elem), rest, pending);
            assert(nodes.skip(1) =~= column_nodes("element"@, pointee(elem)) + rest);
        },
        DType::Mapping(key, value, _) => {
            let values = column_nodes("value"@, pointee(value));
            lemma_column_walk("value"@, pointee(value), rest, pending);
            lemma_column_walk("key"@, pointee(key), values + rest, pending + 1);
            assert(nodes.skip(1).skip(1) =~= column_nodes("key"@, pointee(key)) + (values + rest));
            assert(nodes.skip(1)[0].num_children == 2);
            assert(walk(nodes.skip(1), pending + 1) == 1 + walk(
                nodes.skip(1).skip(1),
                (pending + 2) as nat,
            ));
            assert(holds_subtrees(nodes.skip(1), pending + 1) == holds_subtrees(
                nodes.skip(1).skip(1),
                (pending + 2) as nat,
            ));
        },
        _ => {
            assert(nodes.skip(1) =~= rest);
        },
    }
}

proof fn lemma_fields_walk(fields: Vec<NamedField>, n: nat, rest: Seq<NodeModel>, pending: nat)
    requires
        n <= fields@.len(),
    ensures
        walk(fields_nodes(fields, n) + rest, pending + n) == fields_nodes(fields, n).len() + walk(
            rest,
            pending,
        ),
        holds_subtrees(fields_nodes(fields, n) + rest, pending + n) == holds_subtrees(
            rest,
            pending,
        ),
    decreases fields, n,
{
    if n > 0 {
        let last = column_nodes(fields@[n - 1].name@, pointee(fields@[n - 1].dtype));
        lemma_column_walk(fields@[n - 1].name@, pointee(fields@[n - 1].dtype), rest, pending);
        lemma_fields_walk(fields, (n - 1) as nat, last + rest, pending + 1);
        assert(fields_nodes(fields, n) + rest =~= fields_nodes(fields, (n - 1) as nat) + (last
            + rest));
    } else {
        assert(fields_nodes(fields, 0) + rest =~= rest);
    }
}

/// The number of top-level columns of a file.
pub open spec fn top_count(dtype: DType) -> nat {
    match dtype {
        DType::Struct(fields, _) => fields@.len(),
        _ => 1,
    }
}

/// The name of a top-level column.
pub open spec fn top_name(dtype: DType, i: int) -> Seq<char> {
    match dtype {
        DType::Struct(fields, _) => fields@[i].name@,
        _ => "value"@,
    }
}

/// The type of a top-level column.
pub open spec fn top_dtype(dtype: DType, i: int) -> DType {
    match dtype {
        DType::Struct(fields, _) => *fields@[i].dtype,
        _ => dtype,
    }
}

/// The nodes of the first `n` top-level columns.
pub open spec fn top_nodes(dtype: DType, n: nat) -> Seq<NodeModel> {
    match dtype {
        DType::Struct(fields, _) => fields_nodes(fields, n),
        _ => if n == 0 {
            seq![]
        } else {
            column_nodes("value"@, dtype)
        },
    }
}

proof fn lemma_top_nodes(dtype: DType, i: nat)
    requires
        i < top_count(dtype),
    ensures
        top_nodes(dtype, i + 1) == top_nodes(dtype, i) + column_nodes(
            top_name(dtype, i as int),
            top_dtype(dtype, i as int),
        ),
{
    assert(top_nodes(dtype, i + 1) =~= top_nodes(dtype, i) + column_nodes(
        top_name(dtype, i as int),
        top_dtype(dtype, i as int),
    ));
}

proof fn lemma_top_nodes_prefix(dtype: DType, i: nat, n: nat)
    requires
        i <= n <= top_count(dtype),
    ensures
        top_nodes(dtype, i).len() <= top_nodes(dtype, n).len(),
        top_nodes(dtype, n).take(top_nodes(dtype, i).len() as int) == top_nodes(dtype, i),
    decreases n - i,
{
    if i < n {
        lemma_top_nodes_prefix(dtype, i, (n - 1) as nat);
        lemma_top_nodes(dtype, (n - 1) as nat);
        assert(top_nodes(dtype, n).take(top_nodes(dtype, i).len() as int) =~= top_nodes(
            dtype,
            (n - 1) as nat,
        ).take(top_nodes(dtype, i).len() as int));
    } else {
        assert(top_nodes(dtype, n).take(top_nodes(dtype, n).len() as int) =~= top_nodes(dtype, n));
    }
}

proof fn lemma_leaf_count_sum(a: Seq<NodeModel>, b: Seq<NodeModel>)
    ensures
        leaf_count(a + b) == leaf_count(a) + leaf_count(b),
    decreases b.len(),
{
    if b.len() > 0 {
        lemma_leaf_count_sum(a, b.drop_last());
        assert((a + b).drop_last() =~= a + b.drop_last());
        assert((a + b).last() == b.last());
    } else {
        assert(a + b =~= a);
    }
}

proof fn lemma_top_column(dtype: DType, i: nat)
    requires
        i < top_count(dtype),
    ensures
        ({
            let nodes = schema_nodes(dtype);
            let at = 1 + top_nodes(dtype, i).len();
            let own = column_nodes(top_name(dtype, i as int), top_dtype(dtype, i as int));
            &&& at + own.len() <= nodes.len()
            &&& own.len() > 0
            &&& nodes.subrange(at as int, (at + own.len()) as int) == own
            &&& walk(nodes.skip(at as int), 1) == own.len()
            &&& holds_subtrees(nodes.skip(at as int), 1)
            &&& top_nodes(dtype, i + 1) == top_nodes(dtype, i) + own
        }),
{
    let nodes = schema_nodes(dtype);
    let top = top_count(dtype);
    let whole = top_nodes(dtype, top);
    let front = top_nodes(dtype, i);
    let at = 1 + front.len();
    let own = column_nodes(top_name(dtype, i as int), top_dtype(dtype, i as int));
    assert(nodes =~= seq![nodes[0]] + whole);
    lemma_top_nodes(dtype, i);
    lemma_top_nodes_prefix(dtype, i + 1, top);
    let upto = top_nodes(dtype, i + 1);
    assert forall|k: int| 0 <= k < own.len() implies nodes[at + k] == own[k] by {
        assert(nodes[at + k] == whole[at + k - 1]);
        assert(whole.take(upto.len() as int)[at + k - 1] == upto[at + k - 1]);
    }
    let rest = nodes.skip((at + own.len()) as int);
    assert(nodes.subrange(at as int, (at + own.len()) as int) =~= own);
    assert(nodes.skip(at as int) =~= own + rest);
    lemma_column_walk(top_name(dtype, i as int), top_dtype(dtype, i as int), rest, 0);
}

/// Walks over the subtree at `at`, and gives its end and the number of its leaves.
fn skip_subtree(schema: &Vec<SchemaNode>, at: usize, Ghost(nodes): Ghost<Seq<NodeModel>>) -> (r: (
    usize,
    u64,
))
    requires
        schema@.len() == nodes.len(),
        forall|k: int|
            0 <= k < schema@.len() ==> (#[trigger] schema@[k]).num_children
                == nodes[k].num_children,
        at <= nodes.len(),
        holds_subtrees(nodes.skip(at as int), 1),
    ensures
        r.0 == at + walk(nodes.skip(at as int), 1),
        at <= r.0 <= nodes.len(),
        r.1 == leaf_count(nodes.subrange(at as int, r.0 as int)),
        r.1 <= r.0 - at,
{
    let mut end: usize = at;
    let mut leaves: u64 = 0;
    let mut pending: u64 = 1;
    assert(nodes.subrange(at as int, at as int) =~= Seq::<NodeModel>::empty());
    while pending > 0
        invariant
            schema@.len() == nodes.len(),
            forall|k: int|
                0 <= k < schema@.len() ==> (#[trigger] schema@[k]).num_children
                    == nodes[k].num_children,
            at <= end <= nodes.len(),
            at + walk(nodes.skip(at as int), 1) == end + walk(
                nodes.skip(end as int),
                pending as nat,
            ),
            holds_subtrees(nodes.skip(end as int), pending as nat),
            leaves == leaf_count(nodes.subrange(at as int, end as int)),
            leaves <= end - at,
        decreases nodes.len() - end,
    {
        let ghost here = nodes.skip(end as int);
        let children: u64 = schema[end].num_children;
        proof {
            assert(here.skip(1) =~= nodes.skip(end + 1));
            lemma_pending_bound(here.skip(1), (pending - 1 + here[0].num_children) as nat);
            let seen = nodes.subrange(at as int, end + 1);
            assert(seen.drop_last() =~= nodes.subrange(at as int, end as int));
            assert(seen.last() == nodes[end as int]);
            assert(schema@.len() == schema.len());
        }
        if children == 0 {
            leaves += 1;
        }
        pending = pending - 1 + children;
        end += 1;
    }
    (end, leaves)
}

/// Statistics of a leaf column.
#[derive(Debug, PartialEq)]
pub struct ColumnStat {
    pub column_id: u64,
    pub stats_min: Option<String>,
    pub stats_max: Option<String>,
    pub stats_null_count: Option<u64>,
    pub stats_num_values: Option<u64>,
    pub total_compressed_size: Option<u64>,
    pub contains_nan: Option<bool>,
}

/// What a [`ColumnStat`] stands for.
pub struct ColumnStatModel {
    pub column_id: nat,
    pub stats_min: Option<Seq<char>>,
    pub stats_max: Option<Seq<char>>,
    pub stats_null_count: Option<u64>,
    pub stats_num_values: Option<u64>,
    pub total_compressed_size: Option<u64>,
    pub contains_nan: Option<bool>,
}

impl View for ColumnStat {
    type V = ColumnStatModel;

    open spec fn view(&self) -> ColumnStatModel {
        ColumnStatModel {
            column_id: self.column_id as nat,
            stats_min: opt_text(self.stats_min),
            stats_max: opt_text(self.stats_max),
            stats_null_count: self.stats_null_count,
            stats_num_values: self.stats_num_values,
            total_compressed_size: self.total_compressed_size,
            contains_nan: self.contains_nan,
        }
    }
}

/// The footer's statistics of a top-level column, with the outcomes of converting its bounds to
/// database values.
#[derive(Debug, PartialEq)]
pub struct FooterColumn {
    pub stats: StatsSet,
    pub min: ConvertedScalar,
    pub max: ConvertedScalar,
}

/// The text of a bound that is known exactly.
pub open spec fn exact_text(
    dtype: DType,
    bound: Precision<ScalarValue>,
    converted: ConvertedScalar,
) -> Option<Seq<char>> {
    match bound {
        Precision::Exact(value) => stats_text(dtype, value, converted),
        _ => None,
    }
}

/// The compressed size of a top-level column.
pub open spec fn top_size(sizes: Option<Seq<FieldSize>>, name: Seq<char>) -> Option<u64> {
    match sizes {
        Some(sizes) => size_at(sizes, seq![PathModel::Name(name)]),
        None => None,
    }
}

/// The statistics of top-level column `i`, whose id is the number of leaf columns before it.
pub open spec fn column_stat(
    dtype: DType,
    row_count: u64,
    sizes: Option<Seq<FieldSize>>,
    column: FooterColumn,
    i: int,
) -> ColumnStatModel {
    ColumnStatModel {
        column_id: leaf_count(top_nodes(dtype, i as nat)),
        stats_min: exact_text(top_dtype(dtype, i), column.stats.min, column.min),
        stats_max: exact_text(top_dtype(dtype, i), column.stats.max, column.max),
        stats_null_count: exact_count(column.stats.null_count),
        stats_num_values: Some(row_count),
        total_compressed_size: top_size(sizes, top_name(dtype, i)),
        contains_nan: exact_positive(column.stats.nan_count),
    }
}

/// The statistics of the first `n` top-level columns, of which nested ones have none.
pub open spec fn column_stats(
    dtype: DType,
    row_count: u64,
    sizes: Option<Seq<FieldSize>>,
    columns: Seq<FooterColumn>,
    n: nat,
) -> Seq<ColumnStatModel>
    decreases n,
{
    if n == 0 {
        seq![]
    } else {
        let front = column_stats(dtype, row_count, sizes, columns, (n - 1) as nat);
        if nested(top_dtype(dtype, n - 1)) {
            front
        } else {
            front.push(column_stat(dtype, row_count, sizes, columns[n - 1], n - 1))
        }
    }
}

/// Why a file's metadata could not be made.
#[derive(Debug, PartialEq)]
pub enum MetadataError<E> {
    /// A type could not be named.
    Type(E),
    /// The footer has statistics for another number of columns than the file has.
    StatsLength { stats: usize, columns: usize },
}

/// The sizes in a list that may be missing.
pub open spec fn opt_sizes(sizes: Option<Vec<FieldSize>>) -> Option<Seq<FieldSize>> {
    match sizes {
        Some(sizes) => Some(sizes@),
        None => None,
    }
}

/// The models of column statistics.
pub open spec fn stat_models(stats: Seq<ColumnStat>) -> Seq<ColumnStatModel> {
    stats.map_values(|s: ColumnStat| s@)
}

fn text_if_exact(
    dtype: &DType,
    bound: &Precision<ScalarValue>,
    converted: ConvertedScalar,
) -> (r: Option<String>)
    ensures
        opt_text(r) == exact_text(*dtype, *bound, converted),
{
    match bound {
        Precision::Exact(value) => scalar_value_to_stats_string(dtype, value, converted),
        _ => None,
    }
}

fn size_if_known(sizes: &Option<Vec<FieldSize>>, name: &str) -> (r: Option<u64>)
    ensures
        r == top_size(opt_sizes(*sizes), name@),
{
    match sizes {
        Some(sizes) => {
            let mut path: Vec<PathField> = Vec::new();
            path.push(PathField::Name(name.to_owned()));
            assert(path_model(path@) =~= seq![PathModel::Name(name@)]);
            find_size(sizes, &path)
        },
        None => None,
    }
}

#[verifier::rlimit(40)]
fn stats_of_columns<E>(
    dtype: &DType,
    schema: &Vec<SchemaNode>,
    row_count: u64,
    columns: Vec<FooterColumn>,
    sizes: &Option<Vec<FieldSize>>,
) -> (r: Result<Vec<ColumnStat>, MetadataError<E>>)
    requires
        schema@.len() == schema_nodes(*dtype).len(),
        forall|i: int|
            0 <= i < schema@.len() ==> (#[trigger] schema@[i]).num_children == schema_nodes(
                *dtype,
            )[i].num_children,
    ensures
        if columns@.len() != top_count(*dtype) {
            r == Err::<Vec<ColumnStat>, _>(
                MetadataError::<E>::StatsLength {
                    stats: columns@.len() as usize,
                    columns: top_count(*dtype) as usize,
                },
            )
        } else {
            r matches Ok(stats) && stat_models(stats@) == column_stats(
                *dtype,
                row_count,
                opt_sizes(*sizes),
                columns@,
                columns@.len(),
            )
        },
{
    let ghost nodes = schema_nodes(*dtype);
    let top: usize = match dtype {
        DType::Struct(fields, _) => fields.len(),
        _ => 1,
    };
    if columns.len() != top {
        return Err(MetadataError::StatsLength { stats: columns.len(), columns: top });
    }
    let mut out: Vec<ColumnStat> = Vec::new();
    let mut at: usize = 1;
    let mut next: u64 = 0;
    let mut i: usize = 0;
    let ghost given = columns@;
    proof {
        assert(nodes =~= seq![nodes[0]] + top_nodes(*dtype, top as nat));
        assert(nodes.subrange(1, 1) =~= top_nodes(*dtype, 0));
        assert(leaf_count(Seq::<NodeModel>::empty()) == 0);
        assert(stat_models(out@) =~= column_stats(
            *dtype,
            row_count,
            opt_sizes(*sizes),
            given,
            0,
        ));
    }
    for column in it: columns
        invariant
            it.seq() == given,
            given == columns@,
            i == it.index(),
            given.len() == top,
            top == top_count(*dtype),
            nodes == schema_nodes(*dtype),
            nodes =~= seq![nodes[0]] + top_nodes(*dtype, top as nat),
            schema@.len() == nodes.len(),
            forall|k: int|
                0 <= k < schema@.len() ==> (#[trigger] schema@[k]).num_children
                    == nodes[k].num_children,
            at == 1 + top_nodes(*dtype, i as nat).len(),
            next == leaf_count(top_nodes(*dtype, i as nat)),
            next < at,
            stat_models(out@) == column_stats(
                *dtype,
                row_count,
                opt_sizes(*sizes),
                given,
                i as nat,
            ),
    {
        proof {
            lemma_top_column(*dtype, i as nat);
            lemma_leaf_count_sum(
                top_nodes(*dtype, i as nat),
                column_nodes(top_name(*dtype, i as int), top_dtype(*dtype, i as int)),
            );
        }
        let column_id: u64 = next;
        let (end, leaves) = skip_subtree(schema, at, Ghost(nodes));
        at = end;
        next = next + leaves;
        let FooterColumn { stats, min, max } = column;
        let (name, column_dtype) = match dtype {
            DType::Struct(fields, _) => (fields[i].name.as_str(), &*fields[i].dtype),
            _ => ("value", dtype),
        };
        assert(*column_dtype == top_dtype(*dtype, i as int));
        assert(name@ == top_name(*dtype, i as int));
        if !is_nested_container(column_dtype) {
            let ghost before = out@;
            let stat = ColumnStat {
                column_id,
                stats_min: text_if_exact(column_dtype, &stats.min, min),
                stats_max: text_if_exact(column_dtype, &stats.max, max),
                stats_null_count: exact_u64(&stats.null_count),
                stats_num_values: Some(row_count),
                total_compressed_size: size_if_known(sizes, name),
                contains_nan: match &stats.nan_count {
                    Precision::Exact(count) => Some(*count > 0),
                    _ => None,
                },
            };
            assert(stat@ == column_stat(
                *dtype,
                row_count,
                opt_sizes(*sizes),
                given[i as int],
                i as int,
            ));
            out.push(stat);
            assert(stat_models(out@) =~= stat_models(before).push(stat@));
        }
        i += 1;
    }
    Ok(out)
}

fn stats_of_file<E>(
    dtype: &DType,
    schema: &Vec<SchemaNode>,
    row_count: u64,
    columns: Option<Vec<FooterColumn>>,
    sizes: &Option<Vec<FieldSize>>,
) -> (r: Result<Vec<ColumnStat>, MetadataError<E>>)
    requires
        schema@.len() == schema_nodes(*dtype).len(),
        forall|i: int|
            0 <= i < schema@.len() ==> (#[trigger] schema@[i]).num_children == schema_nodes(
                *dtype,
            )[i].num_children,
    ensures
        stats_are(r, *dtype, row_count, columns, opt_sizes(*sizes)),
{
    match columns {
        Some(columns) => stats_of_columns(dtype, schema, row_count, columns, sizes),
        None => {
            let none: Vec<ColumnStat> = Vec::new();
            assert(stat_models(none@) =~= seq![]);
            Ok(none)
        },
    }
}

/// Whether the result holds the statistics of a file: none where the footer has none, an error
/// where it has them for another number of columns, else those of each column that is not nested.
pub open spec fn stats_are<E>(
    r: Result<Vec<ColumnStat>, MetadataError<E>>,
    dtype: DType,
    row_count: u64,
    columns: Option<Vec<FooterColumn>>,
    sizes: Option<Seq<FieldSize>>,
) -> bool {
    match columns {
        None => r matches Ok(stats) && stat_models(stats@) == Seq::<ColumnStatModel>::empty(),
        Some(columns) => if columns@.len() != top_count(dtype) {
            r == Err::<Vec<ColumnStat>, _>(
                MetadataError::<E>::StatsLength {
                    stats: columns@.len() as usize,
                    columns: top_count(dtype) as usize,
                },
            )
        } else {
            r matches Ok(stats) && stat_models(stats@) == column_stats(
                dtype,
                row_count,
                sizes,
                columns@,
                columns@.len(),
            )
        },
    }
}

/// The statistics of the leaf columns at the top level of a file.
///
/// `columns` are the footer's statistics, if it has any, and `sizes` the compressed sizes of
/// fields, if they are known. A type that cannot be named is an error here too, before all else.
pub fn build_column_stats<E>(
    dtype: &DType,
    type_names: Vec<Result<String, E>>,
    row_count: u64,
    columns: Option<Vec<FooterColumn>>,
    sizes: Option<Vec<FieldSize>>,
) -> (r: Result<Vec<ColumnStat>, MetadataError<E>>)
    requires
        type_names@.len() + 1 == schema_nodes(*dtype).len(),
    ensures
        match first_error(type_names@) {
            Some(e) => r == Err::<Vec<ColumnStat>, _>(MetadataError::Type(e)),
            None => stats_are(r, *dtype, row_count, columns, opt_sizes(sizes)),
        },
        r is Ok <==> (forall|i: int|
            0 <= i < type_names@.len() ==> (#[trigger] type_names@[i]) is Ok) && (
        columns matches Some(given) ==> given@.len() == (match *dtype {
            DType::Struct(fields, _) => fields@.len(),
            _ => 1,
        })),
        r matches Err(MetadataError::StatsLength { stats, columns: found }) ==> columns is Some && stats
            == columns->Some_0@.len() as usize && found == (match *dtype {
            DType::Struct(fields, _) => fields@.len() as usize,
            _ => 1,
        }),
        columns is None ==> (r matches Ok(stats) ==> stats@.len() == 0),
        r matches Ok(stats) ==> (columns matches Some(given) ==> stat_models(stats@) == column_stats(
            *dtype,
            row_count,
            opt_sizes(sizes),
            given@,
            given@.len(),
        )),
{
    proof {
        law_first_error_comes_first(type_names@, 0);
        assert(forall|stats: Seq<ColumnStat>| (#[trigger] stat_models(stats)).len() == stats.len());
    }
    match build_schema(dtype, type_names) {
        Ok(schema) => stats_of_file(dtype, &schema, row_count, columns, &sizes),
        Err(e) => Err(MetadataError::Type(e)),
    }
}

/// Metadata of a file.
#[derive(Debug, PartialEq)]
pub struct FullMetadata {
    pub file_name: String,
    pub num_rows: u64,
    pub file_size_bytes: u64,
    pub schema: Vec<SchemaNode>,
    pub stats: Vec<ColumnStat>,
}

/// Metadata of the file at `path`, from what its footer holds. A file whose size is not known has
/// size 0.
pub fn open_full_metadata<E>(
    path: &str,
    file_size_bytes: Option<u64>,
    num_rows: u64,
    dtype: &DType,
    type_names: Vec<Result<String, E>>,
    columns: Option<Vec<FooterColumn>>,
    sizes: Option<Vec<FieldSize>>,
) -> (r: Result<FullMetadata, MetadataError<E>>)
    requires
        type_names@.len() + 1 == schema_nodes(*dtype).len(),
    ensures
        match first_error(type_names@) {
            Some(e) => r == Err::<FullMetadata, _>(MetadataError::Type(e)),
            None => {
                &&& stats_are(
                    match r {
                        Ok(m) => Ok(m.stats),
                        Err(e) => Err(e),
                    },
                    *dtype,
                    num_rows,
                    columns,
                    opt_sizes(sizes),
                )
                &&& r matches Ok(m) ==> {
                    &&& m.file_name@ == path@
                    &&& m.num_rows == num_rows
                    &&& m.file_size_bytes == (match file_size_bytes {
                        Some(size) => size,
                        None => 0,
                    })
                    &&& schema_is(m.schema@, schema_nodes(*dtype), ok_texts(type_names@))
                }
            },
        },
        r is Ok <==> (forall|i: int|
            0 <= i < type_names@.len() ==> (#[trigger] type_names@[i]) is Ok) && (
        columns matches Some(given) ==> given@.len() == (match *dtype {
            DType::Struct(fields, _) => fields@.len(),
            _ => 1,
        })),
        r matches Ok(m) ==> {
            let nodes = schema_nodes(*dtype);
            &&& m.file_name@ == path@
            &&& m.num_rows == num_rows
            &&& file_size_bytes matches Some(size) ==> m.file_size_bytes == size
            &&& file_size_bytes is None ==> m.file_size_bytes == 0
            &&& m.schema@.len() == nodes.len()
            &&& m.schema@[0].duckdb_type@.len() == 0
            &&& forall|i: int|
                0 <= i < nodes.len() ==> (#[trigger] m.schema@[i]).name@ == nodes[i].name
                    && m.schema@[i].num_children == nodes[i].num_children
            &&& forall|i: int|
                1 <= i < nodes.len() ==> (#[trigger] m.schema@[i]).duckdb_type@
                    == type_names@[i - 1]->Ok_0@
            &&& columns is None ==> m.stats@.len() == 0
            &&& columns matches Some(given) ==> stat_models(m.stats@) == column_stats(
                *dtype,
                num_rows,
                opt_sizes(sizes),
                given@,
                given@.len(),
            )
        },
{
    proof {
        law_first_error_comes_first(type_names@, 0);
        assert(forall|stats: Seq<ColumnStat>| (#[trigger] stat_models(stats)).len() == stats.len());
    }
    let schema = match build_schema(dtype, type_names) {
        Ok(schema) => schema,
        Err(e) => return Err(MetadataError::Type(e)),
    };
    match stats_of_file(dtype, &schema, num_rows, columns, &sizes) {
        Ok(stats) => Ok(
            FullMetadata {
                file_name: path.to_owned(),
                num_rows,
                file_size_bytes: match file_size_bytes {
                    Some(size) => size,
                    None => 0,
                },
                schema,
                stats,
            },
        ),
        Err(e) => Err(e),
    }
}

/// The leaf columns of a schema are its nodes without children.
pub proof fn law_leaf_ids_count_leaves(schema: Seq<SchemaNode>, nodes: Seq<NodeModel>)
    requires
        schema.len() == nodes.len(),
        nodes.len() > 0,
        forall|i: int|
            0 <= i < schema.len() ==> (#[trigger] schema[i]).num_children == nodes[i].num_children,
    ensures
        leaf_total(schema) == leaf_count(nodes.skip(1)),
    decreases schema.len(),
{
    if schema.len() > 1 {
        law_leaf_ids_count_leaves(schema.drop_last(), nodes.drop_last());
        assert(nodes.skip(1).drop_last() =~= nodes.drop_last().skip(1));
        assert(nodes.skip(1).last() == nodes.last());
        assert(schema.last().num_children == nodes.last().num_children);
    } else {
        assert(nodes.skip(1).len() == 0);
    }
}

/// Columns that are not nested have different ids, in the order of the columns, each of them the
/// id of a leaf column of the file.
pub proof fn law_column_ids_increase(dtype: DType, i: nat, j: nat)
    requires
        i < j <= top_count(dtype),
        !nested(top_dtype(dtype, i as int)),
    ensures
        leaf_count(top_nodes(dtype, i)) < leaf_count(top_nodes(dtype, j)),
        leaf_count(top_nodes(dtype, j)) <= leaf_count(schema_nodes(dtype).skip(1)),
{
    let own = column_nodes(top_name(dtype, i as int), top_dtype(dtype, i as int));
    lemma_top_nodes(dtype, i);
    lemma_leaf_count_sum(top_nodes(dtype, i), own);
    assert(own.drop_last() =~= Seq::<NodeModel>::empty());
    assert(leaf_count(Seq::<NodeModel>::empty()) == 0);
    assert(own.len() == 1 && own.last().num_children == 0);
    assert(leaf_count(own) == leaf_count(own.drop_last()) + 1);
    lemma_top_nodes_prefix(dtype, i + 1, j);
    let later = top_nodes(dtype, j).skip(top_nodes(dtype, i + 1).len() as int);
    assert(top_nodes(dtype, j) =~= top_nodes(dtype, i + 1) + later);
    lemma_leaf_count_sum(top_nodes(dtype, i + 1), later);
    let top = top_count(dtype);
    lemma_top_nodes_prefix(dtype, j, top);
    let rest = top_nodes(dtype, top).skip(top_nodes(dtype, j).len() as int);
    assert(schema_nodes(dtype).skip(1) =~= top_nodes(dtype, j) + rest);
    lemma_leaf_count_sum(top_nodes(dtype, j), rest);
}

/// A column's own node comes first: it has the column's name and the whole type of the column,
/// and as many children as that type has parts.
pub proof fn law_node_describes_its_column(name: Seq<char>, dtype: DType)
    ensures
        column_nodes(name, dtype).len() > 0,
        column_nodes(name, dtype)[0].name == name,
        column_nodes(name, dtype)[0].ty == TypeModel::Of(dtype),
        column_nodes(name, dtype)[0].num_children == (match dtype {
            DType::Struct(fields, _) => fields@.len(),
            DType::List(_, _) => 1,
            DType::FixedSizeList(_, _, _) => 1,
            DType::Mapping(_, _, _) => 1,
            _ => 0,
        }),
{
}

/// The nodes of the children of a nested column follow its own node, each with its own name and
/// type: the fields of a struct in order, the element of a list, and for a map one node for its
/// entries with the nodes of the key and the value. A column that is not nested has one node.
pub proof fn law_children_follow_their_column(name: Seq<char>, dtype: DType)
    ensures
        match dtype {
            DType::Struct(fields, _) => forall|i: int|
                0 <= i < fields@.len() ==> {
                    let at = 1 + fields_nodes(fields, i as nat).len() as int;
                    let child = column_nodes((#[trigger] fields@[i]).name@, *fields@[i].dtype);
                    &&& at + child.len() <= column_nodes(name, dtype).len()
                    &&& column_nodes(name, dtype).subrange(at, at + child.len()) == child
                    &&& column_nodes(name, dtype)[at].name == fields@[i].name@
                    &&& column_nodes(name, dtype)[at].ty == TypeModel::Of(*fields@[i].dtype)
                },
            DType::List(elem, _) => {
                &&& column_nodes(name, dtype).skip(1) == column_nodes("element"@, *elem)
                &&& column_nodes(name, dtype)[1].name == "element"@
                &&& column_nodes(name, dtype)[1].ty == TypeModel::Of(*elem)
            },
            DType::FixedSizeList(elem, _, _) => {
                &&& column_nodes(name, dtype).skip(1) == column_nodes("element"@, *elem)
                &&& column_nodes(name, dtype)[1].name == "element"@
                &&& column_nodes(name, dtype)[1].ty == TypeModel::Of(*elem)
            },
            DType::Mapping(key, value, _) => {
                let at = 2 + column_nodes("key"@, *key).len() as int;
                &&& column_nodes(name, dtype)[1].name == "key_value"@
                &&& column_nodes(name, dtype)[1].ty == TypeModel::KeyValue(*key, *value)
                &&& column_nodes(name, dtype)[1].num_children == 2
                &&& column_nodes(name, dtype).subrange(2, at) == column_nodes("key"@, *key)
                &&& column_nodes(name, dtype).skip(at) == column_nodes("value"@, *value)
                &&& column_nodes(name, dtype)[2].name == "key"@
                &&& column_nodes(name, dtype)[2].ty == TypeModel::Of(*key)
                &&& column_nodes(name, dtype)[at].name == "value"@
                &&& column_nodes(name, dtype)[at].ty == TypeModel::Of(*value)
            },
            _ => column_nodes(name, dtype).len() == 1,
        },
{
    let nodes = column_nodes(name, dtype);
    match dtype {
        DType::Struct(fields, _) => {
            assert forall|i: int| 0 <= i < fields@.len() implies {
                let at = 1 + fields_nodes(fields, i as nat).len() as int;
                let child = column_nodes((#[trigger] fields@[i]).name@, *fields@[i].dtype);
                &&& at + child.len() <= nodes.len()
                &&& nodes.subrange(at, at + child.len()) == child
                &&& nodes[at].name == fields@[i].name@
                &&& nodes[at].ty == TypeModel::Of(*fields@[i].dtype)
            } by {
                lemma_top_column(dtype, i as nat);
                let at = 1 + fields_nodes(fields, i as nat).len() as int;
                let child = column_nodes(fields@[i].name@, pointee(fields@[i].dtype));
                let listed = schema_nodes(dtype);
                assert(listed.skip(1) =~= nodes.skip(1));
                assert(listed.subrange(at, at + child.len()) =~= nodes.subrange(
                    at,
                    at + child.len(),
                ));
                law_node_describes_its_column(fields@[i].name@, pointee(fields@[i].dtype));
                assert(nodes.subrange(at, at + child.len())[0] == nodes[at]);
            }
        },
        DType::List(elem, _) => {
            law_node_describes_its_column("element"@, pointee(elem));
            assert(nodes.skip(1) =~= column_nodes("element"@, pointee(elem)));
            assert(nodes.skip(1)[0] == nodes[1]);
        },
        DType::FixedSizeList(elem, _, _) => {
            law_node_describes_its_column("element"@, pointee(elem));
            assert(nodes.skip(1) =~= column_nodes("element"@, pointee(elem)));
            assert(nodes.skip(1)[0] == nodes[1]);
        },
        DType::Mapping(key, value, _) => {
            law_node_describes_its_column("key"@, pointee(key));
            law_node_describes_its_column("value"@, pointee(value));
            let keys = column_nodes("key"@, pointee(key));
            let at = 2 + keys.len() as int;
            assert(nodes.subrange(2, at) =~= keys);
            assert(nodes.skip(at) =~= column_nodes("value"@, pointee(value)));
            assert(nodes.subrange(2, at)[0] == nodes[2]);
            assert(nodes.skip(at)[0] == nodes[at]);
        },
        _ => {},
    }
}

/// A file's schema starts with its root, and below it each column of a struct has a node of its
/// own, with its name and its whole type. A file that holds no struct has one column, `value`.
pub proof fn law_schema_lists_every_column(dtype: DType, i: int)
    ensures
        schema_nodes(dtype)[0].name == "vortex_schema"@,
        schema_nodes(dtype)[0].ty == TypeModel::Root,
        match dtype {
            DType::Struct(fields, _) => {
                let at = 1 + top_nodes(dtype, i as nat).len() as int;
                &&& schema_nodes(dtype)[0].num_children == fields@.len()
                &&& fields@.len() == 0 ==> schema_nodes(dtype).len() == 1
                &&& 0 <= i < fields@.len() ==> {
                    &&& at < schema_nodes(dtype).len()
                    &&& i == 0 ==> at == 1
                    &&& schema_nodes(dtype)[at].name == fields@[i].name@
                    &&& schema_nodes(dtype)[at].ty == TypeModel::Of(*fields@[i].dtype)
                }
            },
            _ => {
                &&& schema_nodes(dtype)[0].num_children == 1
                &&& schema_nodes(dtype)[1].name == "value"@
                &&& schema_nodes(dtype)[1].ty == TypeModel::Of(dtype)
                &&& schema_nodes(dtype).skip(1) == column_nodes("value"@, dtype)
            },
        },
{
    match dtype {
        DType::Struct(fields, _) => {
            if 0 <= i < fields@.len() {
                let at = 1 + top_nodes(dtype, i as nat).len() as int;
                let own = column_nodes(fields@[i].name@, pointee(fields@[i].dtype));
                lemma_top_column(dtype, i as nat);
                law_node_describes_its_column(fields@[i].name@, pointee(fields@[i].dtype));
                assert(schema_nodes(dtype).subrange(at, at + own.len())[0] == schema_nodes(dtype)[at]);
            }
        },
        _ => {
            law_node_describes_its_column("value"@, dtype);
            assert(schema_nodes(dtype).skip(1) =~= column_nodes("value"@, dtype));
            assert(schema_nodes(dtype).skip(1)[0] == schema_nodes(dtype)[1]);
        },
    }
}

/// The nodes of one top-level column begin where those of the column before it end.
pub proof fn law_columns_stand_side_by_side(dtype: DType, i: nat)
    ensures
        match dtype {
            DType::Struct(fields, _) => i < fields@.len() ==> top_nodes(dtype, i + 1).len()
                == top_nodes(dtype, i).len() + column_nodes(
                fields@[i as int].name@,
                *fields@[i as int].dtype,
            ).len(),
            _ => top_nodes(dtype, 1).len() == column_nodes("value"@, dtype).len(),
        },
        top_nodes(dtype, 0).len() == 0,
{
}

/// The leaf columns are the nodes without children.
pub proof fn law_leaves_have_no_children(nodes: Seq<NodeModel>, schema: Seq<SchemaNode>)
    ensures
        leaf_count(nodes) == nodes.filter(|n: NodeModel| n.num_children == 0).len(),
        schema.len() > 0 ==> leaf_total(schema) == schema.skip(1).filter(
            |n: SchemaNode| n.num_children == 0,
        ).len(),
        schema.len() == 0 ==> leaf_total(schema) == 0,
    decreases nodes.len() + schema.len(),
{
    reveal(Seq::filter);
    if nodes.len() > 0 {
        law_leaves_have_no_children(nodes.drop_last(), Seq::empty());
    }
    if schema.len() > 1 {
        law_leaves_have_no_children(Seq::empty(), schema.drop_last());
        assert(schema.skip(1).drop_last() =~= schema.drop_last().skip(1));
        assert(schema.skip(1).last() == schema.last());
    } else if schema.len() == 1 {
        assert(schema.skip(1) =~= Seq::<SchemaNode>::empty());
    }
}

/// The first error among results is the one with none before it.
pub proof fn law_first_error_comes_first<T, E>(results: Seq<Result<T, E>>, i: int)
    ensures
        0 <= i < results.len() && results[i] is Err && (forall|k: int|
            0 <= k < i ==> (#[trigger] results[k]) is Ok) ==> first_error(results) == Some(
            results[i]->Err_0,
        ),
        (forall|k: int| 0 <= k < results.len() ==> (#[trigger] results[k]) is Ok) <==> first_error(
            results,
        ) is None,
    decreases results.len(),
{
    if results.len() > 0 && results[0] is Ok {
        law_first_error_comes_first(results.skip(1), i - 1);
        assert(forall|k: int|
            0 <= k < results.len() - 1 ==> (#[trigger] results.skip(1)[k]) == results[k + 1]);
        if forall|k: int| 0 <= k < results.len() - 1 ==> (#[trigger] results.skip(1)[k]) is Ok {
            assert forall|k: int| 0 <= k < results.len() implies (#[trigger] results[k]) is Ok by {
                if k > 0 {
                    assert(results.skip(1)[k - 1] is Ok);
                }
            }
        }
    }
}

/// Each top-level column that is not nested is reported, in the order of the columns, with what
/// its own statistics hold exactly: an exact bound by its text, an exact number of nulls, and
/// whether an exact number of NaNs is above zero. What is not exact is left out.
pub proof fn law_columns_report_their_statistics(
    dtype: DType,
    row_count: u64,
    sizes: Option<Seq<FieldSize>>,
    columns: Seq<FooterColumn>,
    i: nat,
    n: nat,
)
    requires
        i < n <= columns.len(),
    ensures
        ({
            let stats = column_stats(dtype, row_count, sizes, columns, n);
            let at = column_stats(dtype, row_count, sizes, columns, i).len() as int;
            let own = match dtype {
                DType::Struct(fields, _) => *fields@[i as int].dtype,
                _ => dtype,
            };
            let name = match dtype {
                DType::Struct(fields, _) => fields@[i as int].name@,
                _ => "value"@,
            };
            let footer = columns[i as int];
            if own is Struct || own is List || own is FixedSizeList || own is Mapping {
                column_stats(dtype, row_count, sizes, columns, i + 1).len() == at
            } else {
                &&& at < stats.len()
                &&& column_stats(dtype, row_count, sizes, columns, i + 1).len() == at + 1
                &&& stats[at].column_id == leaf_count(top_nodes(dtype, i))
                &&& footer.stats.min matches Precision::Exact(value) ==> stats[at].stats_min
                    == stats_text(own, value, footer.min)
                &&& !(footer.stats.min is Exact) ==> stats[at].stats_min is None
                &&& footer.stats.max matches Precision::Exact(value) ==> stats[at].stats_max
                    == stats_text(own, value, footer.max)
                &&& !(footer.stats.max is Exact) ==> stats[at].stats_max is None
                &&& footer.stats.null_count matches Precision::Exact(nulls)
                    ==> stats[at].stats_null_count == Some(nulls)
                &&& !(footer.stats.null_count is Exact) ==> stats[at].stats_null_count is None
                &&& stats[at].stats_num_values == Some(row_count)
                &&& sizes matches Some(list) ==> stats[at].total_compressed_size == size_at(
                    list,
                    seq![PathModel::Name(name)],
                )
                &&& sizes is None ==> stats[at].total_compressed_size is None
                &&& footer.stats.nan_count matches Precision::Exact(nans) ==> stats[at].contains_nan
                    == Some(nans > 0)
                &&& !(footer.stats.nan_count is Exact) ==> stats[at].contains_nan is None
            }
        }),
        column_stats(dtype, row_count, sizes, columns, 0).len() == 0,
    decreases n,
{
    if i + 1 < n {
        law_columns_report_their_statistics(dtype, row_count, sizes, columns, i, (n - 1) as nat);
    }
}

/// A planned node stands for a node with its own name, type and number of children, and a list of
/// them for as many nodes in the same order.
pub proof fn law_plans_stand_for_their_nodes<'a>(plan: Seq<PlannedNode<'a>>, i: int)
    requires
        0 <= i < plan.len(),
    ensures
        plan_model(plan).len() == plan.len(),
        plan_model(plan)[i].name == plan[i].name@,
        plan_model(plan)[i].num_children == plan[i].num_children,
        plan[i].ty is Root ==> plan_model(plan)[i].ty == TypeModel::Root,
        plan[i].ty matches NodeType::Of(dtype) ==> plan_model(plan)[i].ty == TypeModel::Of(*dtype),
        plan[i].ty matches NodeType::KeyValue(key, value) ==> plan_model(plan)[i].ty
            == TypeModel::KeyValue(*key, *value),
{
}

/// What the statistics of a column stand for are the same numbers and texts, each under its own
/// name, and a list of them stands for as many in the same order.
pub proof fn law_column_statistics_stand_for_themselves(stats: Seq<ColumnStat>, i: int)
    requires
        0 <= i < stats.len(),
    ensures
        stat_models(stats).len() == stats.len(),
        ({
            let model = stat_models(stats)[i];
            &&& model.column_id == stats[i].column_id
            &&& stats[i].stats_min is None <==> model.stats_min is None
            &&& stats[i].stats_min matches Some(text) ==> model.stats_min == Some(text@)
            &&& stats[i].stats_max is None <==> model.stats_max is None
            &&& stats[i].stats_max matches Some(text) ==> model.stats_max == Some(text@)
            &&& model.stats_null_count == stats[i].stats_null_count
            &&& model.stats_num_values == stats[i].stats_num_values
            &&& model.total_compressed_size == stats[i].total_compressed_size
            &&& model.contains_nan == stats[i].contains_nan
        }),
{
}

} // verus!
