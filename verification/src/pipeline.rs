//! Pipeline vocabulary: row schemas, sources, transforms, sinks and the
//! graph that joins them, and the stable identifier of the pipeline
//! extension.
use crate::data_type::DataType;
use crate::expr_node::NodeId;
use vstd::prelude::*;

verus! {

/// Stable name of the pipeline extension payload.
pub const EXTENSION_NAME: &'static str = "dol.pipeline/graph";

/// Wire-format version of the pipeline extension payload.
pub const EXTENSION_VERSION: u32 = 1;

/// FNV-1a offset basis (32-bit).
pub const FNV_OFFSET_BASIS: u32 = 0x811c9dc5;

/// FNV-1a prime (32-bit).
pub const FNV_PRIME: u32 = 0x01000193;

/// The 32-bit FNV-1a hash of `bytes`: starting from the offset basis,
/// each byte in turn is xored in and the result multiplied by the prime,
/// modulo 2^32.
pub open spec fn fnv1a_32_of(bytes: Seq<u8>) -> u32
    decreases bytes.len(),
{
    if bytes.len() == 0 {
        FNV_OFFSET_BASIS
    } else {
        (((fnv1a_32_of(bytes.drop_last()) ^ (bytes.last() as u32)) as int * FNV_PRIME as int)
            % 0x1_0000_0000) as u32
    }
}

/// The 32-bit FNV-1a hash of `bytes`, which names an extension stably
/// across processes.
pub fn fnv1a_32(bytes: &[u8]) -> (h: u32)
    ensures
        h == fnv1a_32_of(bytes@),
{
    let mut hash: u32 = FNV_OFFSET_BASIS;
    let mut i: usize = 0;
    while i < bytes.len()
        invariant
            i <= bytes@.len(),
            hash == fnv1a_32_of(bytes@.take(i as int)),
        decreases bytes@.len() - i,
    {
        proof {
            assert(bytes@.take(i + 1 as int).drop_last() =~= bytes@.take(i as int));
        }
        hash = hash ^ (bytes[i] as u32);
        hash = hash.wrapping_mul(FNV_PRIME);
        i = i + 1;
    }
    proof {
        assert(bytes@.take(i as int) =~= bytes@);
    }
    hash
}

/// Index of a node within a pipeline graph.
#[derive(Clone, Copy, Debug, PartialEq, Eq, Hash, PartialOrd, Ord, Structural)]
pub struct NodeIdx(
    /// Position of the node.
    pub u32,
);

/// The kind of a pipeline join.
#[derive(Debug, Clone, Copy, PartialEq, Eq, Structural)]
pub enum JoinKind {
    /// Inner join.
    Inner,
    /// Left outer join.
    Left,
    /// Right outer join.
    Right,
    /// Full outer join.
    Full,
    /// Cross join.
    Cross,
}

/// Where rows leave the graph.
#[derive(Debug, Clone, PartialEq, Eq)]
pub enum Sink {
    /// Append rows to an entity.
    Entity {
        /// Fully-qualified entity address.
        target: String,
    },
    /// Write rows to a file.
    File {
        /// Path.
        path: String,
        /// Format.
        format: String,
    },
    /// Write rows to an object store.
    Object {
        /// `bucket/prefix` location.
        location: String,
    },
    /// Return rows back through a named parameter.
    Parameter {
        /// Parameter name.
        name: String,
    },
}

/// A single column in a row.
#[derive(Debug, PartialEq, Eq)]
pub struct ColumnSchema {
    /// Column name as it appears downstream.
    pub name: String,
    /// Column type.
    pub ty: DataType,
    /// Whether the column may carry NULLs.
    pub nullable: bool,
}

/// Ordered structural schema of a row.
#[derive(Debug, PartialEq, Eq)]
pub struct RowSchema {
    /// Columns in left-to-right order.
    pub columns: Vec<ColumnSchema>,
}

impl RowSchema {
    /// The schema with no columns.
    pub fn empty() -> (r: Self)
        ensures
            r.columns@.len() == 0,
    {
        RowSchema { columns: Vec::new() }
    }

    /// The same schema with one more column, `name` of type `ty`, at the
    /// right.
    pub fn with_column(self, name: &str, ty: DataType, nullable: bool) -> (r: Self)
        ensures
            r.columns@.len() == self.columns@.len() + 1,
            r.columns@.take(self.columns@.len() as int) == self.columns@,
            r.columns@.last().name@ == name@,
            r.columns@.last().ty == ty,
            r.columns@.last().nullable == nullable,
    {
        let mut columns = self.columns;
        columns.push(ColumnSchema { name: name.to_owned(), ty, nullable });
        RowSchema { columns }
    }

    /// Number of columns.
    pub fn len(&self) -> (n: usize)
        ensures
            n == self.columns@.len(),
    {
        self.columns.len()
    }

    /// Whether there are no columns.
    pub fn is_empty(&self) -> (b: bool)
        ensures
            b <==> self.columns@.len() == 0,
    {
        self.columns.len() == 0
    }
}

/// Where rows enter the graph.
#[derive(Debug, PartialEq, Eq)]
pub enum Source {
    /// Read from a named entity (table, collection, ...).
    Entity {
        /// Fully-qualified entity address.
        target: String,
        /// Output schema contracted by the source (or empty if unknown).
        schema: RowSchema,
    },
    /// Read from a file at `path`.
    File {
        /// Backend-resolvable path.
        path: String,
        /// Hint at the file format (`"csv"`, `"parquet"`, ...).
        format: String,
        /// Output schema contracted by the source.
        schema: RowSchema,
    },
    /// Read from an object store.
    Object {
        /// `bucket/prefix`.
        location: String,
        /// Output schema contracted by the source.
        schema: RowSchema,
    },
    /// Inline parameter feed.
    Parameter {
        /// Name of the named parameter.
        name: String,
        /// Output schema.
        schema: RowSchema,
    },
}

/// In-graph row transformation; expressions are ids in an expression arena.
#[derive(Debug, PartialEq, Eq)]
pub enum Transform {
    /// Keep the rows the predicate holds for.
    Filter {
        /// Predicate expression.
        predicate: NodeId,
    },
    /// A new ordered list of expressions becomes the row.
    Project {
        /// Output column expressions.
        exprs: Vec<NodeId>,
    },
    /// Aggregation grouped by the given keys.
    Aggregate {
        /// Group-by keys.
        keys: Vec<NodeId>,
        /// Aggregation functions over the group.
        aggs: Vec<NodeId>,
    },
    /// Cross-row join.
    Join {
        /// Inner, left, right, full or cross.
        kind: JoinKind,
        /// Predicate.
        on: NodeId,
    },
    /// Unnest a collection-typed column into rows.
    Unnest {
        /// Column to unnest.
        column: NodeId,
    },
    /// Wide to long.
    Unpivot {
        /// Columns kept as identifiers.
        id_columns: Vec<NodeId>,
        /// Columns unpivoted into `(name, value)` rows.
        value_columns: Vec<NodeId>,
    },
    /// Long to wide.
    Pivot {
        /// Pivot key column.
        key: NodeId,
        /// Value column.
        value: NodeId,
    },
    /// Time-aligned join: rows match the most recent prior row on the right.
    AsofJoin {
        /// Predicate.
        on: NodeId,
        /// Time column on the left.
        left_time: NodeId,
        /// Time column on the right.
        right_time: NodeId,
    },
    /// Fill missing buckets in a time series.
    GapFill {
        /// Time column.
        time: NodeId,
        /// Bucket interval, read by the backend.
        bucket: String,
    },
    /// Approximate quantile sketch.
    Tdigest {
        /// Numeric column to summarise.
        column: NodeId,
    },
    /// An approximate aggregate named by `kind`.
    Approx {
        /// Function name (`"distinct"`, `"top_k"`, ...).
        kind: String,
        /// Function arguments.
        args: Vec<NodeId>,
    },
    /// Keep at most `n` rows.
    Limit {
        /// Row cap.
        n: u64,
    },
    /// Skip the first `n` rows.
    Offset {
        /// Rows to skip.
        n: u64,
    },
}

/// A node of the dataflow graph.
#[derive(Debug, PartialEq, Eq)]
pub enum Node {
    /// Reads rows into the graph.
    Source(Source),
    /// Rewrites rows.
    Transform(Transform),
    /// Consumes rows out of the graph.
    Sink(Sink),
}

/// A directed pipeline graph: its nodes in insertion order, the inputs of
/// each, and the nodes marked as outputs. Cycles are not refused here, so
/// that a graph can be inspected while it is built.
#[derive(Debug, PartialEq, Eq)]
pub struct Graph {
    /// Nodes in insertion order.
    pub nodes: Vec<Node>,
    /// `inputs[i]` lists the nodes feeding node `i`.
    pub inputs: Vec<Vec<NodeIdx>>,
    /// Output sinks.
    pub outputs: Vec<NodeIdx>,
}

impl Graph {
    /// Each node has its input list.
    pub open spec fn well_formed(&self) -> bool {
        self.nodes@.len() == self.inputs@.len()
    }

    /// The empty graph.
    pub fn new() -> (g: Self)
        ensures
            g.well_formed(),
            g.nodes@.len() == 0,
            g.outputs@.len() == 0,
    {
        Graph { nodes: Vec::new(), inputs: Vec::new(), outputs: Vec::new() }
    }

    /// Add `node` fed by `inputs`; its index is the number of nodes before
    /// it (as a `u32`).
    pub fn add(&mut self, node: Node, inputs: Vec<NodeIdx>) -> (idx: NodeIdx)
        requires
            old(self).well_formed(),
        ensures
            final(self).well_formed(),
            idx.0 == old(self).nodes@.len() as u32,
            final(self).nodes@ == old(self).nodes@.push(node),
            final(self).inputs@ == old(self).inputs@.push(inputs),
            final(self).outputs == old(self).outputs,
    {
        let idx = NodeIdx(self.nodes.len() as u32);
        self.nodes.push(node);
        self.inputs.push(inputs);
        idx
    }

    /// Mark `idx` as an output.
    pub fn mark_output(&mut self, idx: NodeIdx)
        ensures
            final(self).outputs@ == old(self).outputs@.push(idx),
            final(self).nodes == old(self).nodes,
            final(self).inputs == old(self).inputs,
    {
        self.outputs.push(idx);
    }

    /// Number of nodes.
    pub fn len(&self) -> (n: usize)
        ensures
            n == self.nodes@.len(),
    {
        self.nodes.len()
    }

    /// Whether the graph has no nodes.
    pub fn is_empty(&self) -> (b: bool)
        ensures
            b <==> self.nodes@.len() == 0,
    {
        self.nodes.len() == 0
    }
}

} // verus!
