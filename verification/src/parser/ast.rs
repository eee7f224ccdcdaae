//! Abstract syntax of the openCypher subset.

use vstd::prelude::*;

verus! {


/// A complete Cypher query.
#[derive(Debug, Clone, PartialEq)]
pub struct Query {
    /// Ordered list of clauses that make up the query.
    pub clauses: Vec<Clause>,
}

/// Top-level clause types.
#[derive(Debug, Clone, PartialEq)]
pub enum Clause {
    /// `MATCH` clause.
    Match(MatchClause),
    /// `RETURN` clause.
    Return(ReturnClause),
    /// `CREATE` clause.
    Create(CreateClause),
    /// `SET` clause.
    SetProperties(SetClause),
    /// `REMOVE` clause.
    Remove(RemoveClause),
    /// `DELETE` / `DETACH DELETE` clause.
    Delete(DeleteClause),
    /// `WITH` clause.
    With(WithClause),
    /// `MERGE` clause.
    Merge(MergeClause),
    /// `UNWIND` clause.
    Unwind(UnwindClause),
    /// `CREATE INDEX` clause.
    CreateIndex(CreateIndexClause),
    /// `DROP INDEX` clause.
    DropIndex(DropIndexClause),
}

/// Temporal predicate for time-travel queries.
#[derive(Debug, Clone, PartialEq)]
pub enum TemporalPredicate {
    /// `AT TIME expr` -- find the version current at a specific point in time.
    AsOf(Expression),
    /// `BETWEEN TIME expr AND expr` -- find all versions within a time range.
    Between(Expression, Expression),
}

/// A `MATCH` clause with optional temporal predicate and filter.
#[derive(Debug, Clone, PartialEq)]
pub struct MatchClause {
    /// True when `OPTIONAL MATCH`.
    pub optional: bool,
    /// The graph pattern to match.
    pub pattern: Pattern,
    /// Optional temporal predicate (`AT TIME` / `BETWEEN TIME`).
    pub temporal_predicate: Option<TemporalPredicate>,
    /// Optional `WHERE` filter expression.
    pub where_clause: Option<Expression>,
}

/// A `RETURN` clause with optional ordering, skip, and limit.
#[derive(Debug, Clone, PartialEq)]
pub struct ReturnClause {
    /// Whether `DISTINCT` was specified.
    pub distinct: bool,
    /// Expressions to return.
    pub items: Vec<ReturnItem>,
    /// Optional `ORDER BY` items.
    pub order_by: Option<Vec<OrderItem>>,
    /// Optional `SKIP` expression.
    pub skip: Option<Expression>,
    /// Optional `LIMIT` expression.
    pub limit: Option<Expression>,
}

/// A single item in a `RETURN` or `WITH` clause.
#[derive(Debug, Clone, PartialEq)]
pub struct ReturnItem {
    /// The expression to evaluate.
    pub expr: Expression,
    /// Optional `AS` alias.
    pub alias: Option<String>,
}

/// A single sort key in an `ORDER BY` clause.
#[derive(Debug, Clone, PartialEq)]
pub struct OrderItem {
    /// The expression to sort by.
    pub expr: Expression,
    /// True for `ASC` (default), false for `DESC`.
    pub ascending: bool,
}

/// A `CREATE` clause with a pattern to create.
#[derive(Debug, Clone, PartialEq)]
pub struct CreateClause {
    /// The graph pattern to create.
    pub pattern: Pattern,
}

/// A `SET` clause with property assignments.
#[derive(Debug, Clone, PartialEq)]
pub struct SetClause {
    /// Property assignment items.
    pub items: Vec<SetItem>,
}

/// A single property assignment in a `SET` clause.
#[derive(Debug, Clone, PartialEq)]
pub enum SetItem {
    /// Set a property to a value: `target = value`.
    Property {
        /// The property access expression (e.g. `n.name`).
        target: Expression,
        /// The value expression.
        value: Expression,
    },
}

/// A `REMOVE` clause.
#[derive(Debug, Clone, PartialEq)]
pub struct RemoveClause {
    /// Items to remove.
    pub items: Vec<RemoveItem>,
}

/// A single item in a `REMOVE` clause.
#[derive(Debug, Clone, PartialEq)]
pub enum RemoveItem {
    /// Remove a property (e.g. `n.name`).
    Property(Expression),
    /// Remove a label from a node (e.g. `n:Label`).
    Label {
        /// Variable name.
        variable: String,
        /// Label to remove.
        label: String,
    },
}

/// A `DELETE` or `DETACH DELETE` clause.
#[derive(Debug, Clone, PartialEq)]
pub struct DeleteClause {
    /// True if `DETACH DELETE` (also deletes relationships).
    pub detach: bool,
    /// Expressions identifying entities to delete.
    pub exprs: Vec<Expression>,
}

/// A `WITH` clause for intermediate result piping.
#[derive(Debug, Clone, PartialEq)]
pub struct WithClause {
    /// Whether `DISTINCT` was specified.
    pub distinct: bool,
    /// Projected items.
    pub items: Vec<ReturnItem>,
    /// Optional `WHERE` filter.
    pub where_clause: Option<Expression>,
}

/// A `MERGE` clause with optional `ON MATCH` / `ON CREATE` actions.
#[derive(Debug, Clone, PartialEq)]
pub struct MergeClause {
    /// The pattern to match or create.
    pub pattern: Pattern,
    /// `SET` items to apply when the pattern matches.
    pub on_match: Vec<SetItem>,
    /// `SET` items to apply when the pattern is created.
    pub on_create: Vec<SetItem>,
}

/// An `UNWIND` clause that expands a list into rows.
#[derive(Debug, Clone, PartialEq)]
pub struct UnwindClause {
    /// The list expression to unwind.
    pub expr: Expression,
    /// The variable name bound to each element.
    pub variable: String,
}

/// The target kind of a property index.
#[derive(Debug, Clone, PartialEq)]
pub enum IndexTarget {
    /// Index on a node label.
    NodeLabel(String),
    /// Index on a relationship type.
    RelationshipType(String),
}

/// `CREATE INDEX [name] ON :Label(property)` or `CREATE INDEX [name] ON :REL_TYPE(property)`
#[derive(Debug, Clone, PartialEq)]
pub struct CreateIndexClause {
    /// Optional index name.
    pub name: Option<String>,
    /// Label or relationship type the index applies to.
    pub target: IndexTarget,
    /// Property key the index covers.
    pub property: String,
}

/// DROP INDEX name
#[derive(Debug, Clone, PartialEq)]
pub struct DropIndexClause {
    /// Name of the index to drop.
    pub name: String,
}

// -- Patterns --

/// A graph pattern consisting of one or more comma-separated chains.
#[derive(Debug, Clone, PartialEq)]
pub struct Pattern {
    /// Comma-separated pattern chains.
    pub chains: Vec<PatternChain>,
}

/// A single chain of alternating nodes and relationships.
#[derive(Debug, Clone, PartialEq)]
pub struct PatternChain {
    /// Alternating node and relationship elements.
    pub elements: Vec<PatternElement>,
}

/// An element within a pattern chain.
#[derive(Debug, Clone, PartialEq)]
pub enum PatternElement {
    /// A node pattern (e.g. `(n:Person)`).
    Node(NodePattern),
    /// A relationship pattern (e.g. `-[:KNOWS]->`).
    Relationship(RelationshipPattern),
}

/// A node pattern: `(variable:Label {properties})`.
#[derive(Debug, Clone, PartialEq)]
pub struct NodePattern {
    /// Optional variable binding.
    pub variable: Option<String>,
    /// Zero or more labels.
    pub labels: Vec<String>,
    /// Optional inline property map.
    pub properties: Option<MapLiteral>,
}

/// A relationship pattern: `-[variable:TYPE {props}]->`.
#[derive(Debug, Clone, PartialEq)]
pub struct RelationshipPattern {
    /// Optional variable binding.
    pub variable: Option<String>,
    /// Relationship type filters.
    pub rel_types: Vec<String>,
    /// Arrow direction.
    pub direction: RelDirection,
    /// Optional inline property map.
    pub properties: Option<MapLiteral>,
    /// Minimum hops for variable-length paths. None means regular 1-hop.
    pub min_hops: Option<u32>,
    /// Maximum hops for variable-length paths. None means unbounded (capped by planner).
    pub max_hops: Option<u32>,
}

/// Relationship arrow direction.
#[derive(Debug, Clone, Copy, PartialEq, Eq)]
pub enum RelDirection {
    /// `-[...]->`
    Outgoing,
    /// `<-[...]-`
    Incoming,
    /// `-[...]-`
    Undirected,
}

/// A map literal is a list of key-value pairs: `{key1: expr1, key2: expr2}`.
pub type MapLiteral = Vec<(String, Expression)>;

// -- Expressions --

/// An expression node in the AST.
#[derive(Debug, PartialEq)]
pub enum Expression {
    /// A literal value.
    Literal(Literal),
    /// A variable reference.
    Variable(String),
    /// Property access: `expr.prop`
    Property(Box<Expression>, String),
    /// Parameter reference: `$name`
    Parameter(String),
    /// Binary operation: `lhs op rhs`.
    BinaryOp(BinaryOp, Box<Expression>, Box<Expression>),
    /// Unary operation: `op expr`.
    UnaryOp(UnaryOp, Box<Expression>),
    /// Function call: `name(args)` or `name(DISTINCT args)`.
    FunctionCall {
        /// Function name.
        name: String,
        /// Whether `DISTINCT` was specified.
        distinct: bool,
        /// Function arguments.
        args: Vec<Expression>,
    },
    /// `expr IS [NOT] NULL` -- bool is true when IS NOT NULL
    IsNull(Box<Expression>, bool),
    /// `count(*)`
    CountStar,
    /// List literal: `[expr, expr, ...]`
    ListLiteral(Vec<Expression>),
}

/// A literal value in the AST.
#[derive(Debug, Clone, PartialEq)]
pub enum Literal {
    /// Integer literal (e.g. `42`).
    Integer(i64),
    /// Floating-point literal, as its decimal text (e.g. `3.14`).
    Float(String),
    /// String literal (e.g. `'hello'`).
    String(String),
    /// Boolean literal (`true` / `false`).
    Bool(bool),
    /// `NULL` literal.
    Null,
}

/// Binary operators.
#[derive(Debug, Clone, Copy, PartialEq, Eq)]
pub enum BinaryOp {
    /// `+` addition.
    Add,
    /// `-` subtraction.
    Sub,
    /// `*` multiplication.
    Mul,
    /// `/` division.
    Div,
    /// `%` modulus.
    Mod,
    /// `=` equality.
    Eq,
    /// `<>` / `!=` inequality.
    Neq,
    /// `<` less than.
    Lt,
    /// `<=` less than or equal.
    Lte,
    /// `>` greater than.
    Gt,
    /// `>=` greater than or equal.
    Gte,
    /// `AND` logical conjunction.
    And,
    /// `OR` logical disjunction.
    Or,
}

/// Unary operators.
#[derive(Debug, Clone, Copy, PartialEq, Eq)]
pub enum UnaryOp {
    /// `NOT` logical negation.
    Not,
    /// `-` arithmetic negation.
    Neg,
}

// -- Subgraph Snapshot --

/// CREATE SNAPSHOT clause for materializing query results into a subgraph.
///
/// Syntax: CREATE SNAPSHOT (var:Label {props}) [AT TIME expr] FROM MATCH pattern [WHERE filter] RETURN items
#[derive(Debug, Clone, PartialEq)]
pub struct CreateSnapshotClause {
    /// Optional variable name for the snapshot subgraph.
    pub variable: Option<String>,
    /// Labels for the snapshot subgraph.
    pub labels: Vec<String>,
    /// Properties to set on the snapshot subgraph.
    pub properties: Option<MapLiteral>,
    /// Optional temporal anchor (AT TIME expr).
    pub temporal_anchor: Option<Expression>,
    /// The FROM MATCH clause defining the source pattern.
    pub from_match: MatchClause,
    /// The FROM RETURN items defining what to capture.
    pub from_return: Vec<ReturnItem>,
}

/// CREATE HYPEREDGE clause for creating a hyperedge connecting multiple sources and targets.
///
/// Syntax: CREATE HYPEREDGE (var:Label) FROM (expr, expr, ...) TO (expr, expr, ...)
#[derive(Debug, Clone, PartialEq)]
pub struct CreateHyperedgeClause {
    /// Optional variable name for the hyperedge.
    pub variable: Option<String>,
    /// Labels (relationship types) for the hyperedge.
    pub labels: Vec<String>,
    /// Source participant expressions (FROM list).
    pub sources: Vec<Expression>,
    /// Target participant expressions (TO list).
    pub targets: Vec<Expression>,
}

/// MATCH HYPEREDGE clause for querying hyperedges.
///
/// Syntax: MATCH HYPEREDGE (var:Label)
#[derive(Debug, Clone, PartialEq)]
pub struct MatchHyperedgeClause {
    /// Optional variable name for the hyperedge.
    pub variable: Option<String>,
    /// Labels to filter by.
    pub labels: Vec<String>,
}



// ---------------------------------------------------------------------------
// Mathematical models of the syntax tree: text as character sequences and
// lists as sequences.
// ---------------------------------------------------------------------------

/// Model of a [`Literal`].
pub enum SpecLiteral {
    Integer(i64),
    Float(Seq<char>),
    String(Seq<char>),
    Bool(bool),
    Null,
}

/// Model of an [`Expression`].
pub enum SpecExpr {
    Literal(SpecLiteral),
    Variable(Seq<char>),
    Property(Box<SpecExpr>, Seq<char>),
    Parameter(Seq<char>),
    BinaryOp(BinaryOp, Box<SpecExpr>, Box<SpecExpr>),
    UnaryOp(UnaryOp, Box<SpecExpr>),
    FunctionCall { name: Seq<char>, distinct: bool, args: Seq<SpecExpr> },
    IsNull(Box<SpecExpr>, bool),
    CountStar,
    ListLiteral(Seq<SpecExpr>),
}

impl View for Literal {
    type V = SpecLiteral;

    open spec fn view(&self) -> SpecLiteral {
        match self {
            Literal::Integer(n) => SpecLiteral::Integer(*n),
            Literal::Float(t) => SpecLiteral::Float(t@),
            Literal::String(t) => SpecLiteral::String(t@),
            Literal::Bool(b) => SpecLiteral::Bool(*b),
            Literal::Null => SpecLiteral::Null,
        }
    }
}

/// The model of an expression.
pub open spec fn expr_view(e: Expression) -> SpecExpr
    decreases e, 1int,
{
    match e {
        Expression::Literal(l) => SpecExpr::Literal(l@),
        Expression::Variable(v) => SpecExpr::Variable(v@),
        Expression::Property(b, p) => SpecExpr::Property(Box::new(expr_view(*b)), p@),
        Expression::Parameter(p) => SpecExpr::Parameter(p@),
        Expression::BinaryOp(op, l, r) => SpecExpr::BinaryOp(
            op,
            Box::new(expr_view(*l)),
            Box::new(expr_view(*r)),
        ),
        Expression::UnaryOp(op, b) => SpecExpr::UnaryOp(op, Box::new(expr_view(*b))),
        Expression::FunctionCall { name, distinct, args } => SpecExpr::FunctionCall {
            name: name@,
            distinct,
            args: exprs_view(args@),
        },
        Expression::IsNull(b, n) => SpecExpr::IsNull(Box::new(expr_view(*b)), n),
        Expression::CountStar => SpecExpr::CountStar,
        Expression::ListLiteral(items) => SpecExpr::ListLiteral(exprs_view(items@)),
    }
}

/// The models of a list of expressions.
pub open spec fn exprs_view(v: Seq<Expression>) -> Seq<SpecExpr>
    decreases v, 0int,
{
    if v.len() == 0 {
        Seq::empty()
    } else {
        exprs_view(v.drop_last()).push(expr_view(v.last()))
    }
}

impl View for Expression {
    type V = SpecExpr;

    open spec fn view(&self) -> SpecExpr {
        expr_view(*self)
    }
}

/// Facts about the models of expression lists: one model per element.
pub(crate) proof fn lemma_exprs_view(v: Seq<Expression>)
    ensures
        exprs_view(v).len() == v.len(),
        forall|i: int| 0 <= i < v.len() ==> #[trigger] exprs_view(v)[i] == expr_view(v[i]),
    decreases v.len(),
{
    if v.len() > 0 {
        lemma_exprs_view(v.drop_last());
    }
}

/// The model of an optional string.
pub open spec fn opt_str(o: Option<String>) -> Option<Seq<char>> {
    match o {
        Some(s) => Some(s@),
        None => None,
    }
}

/// The models of a list of strings.
pub open spec fn strs_view(v: Seq<String>) -> Seq<Seq<char>> {
    v.map_values(|s: String| s@)
}

/// The model of an optional expression.
pub open spec fn opt_expr(o: Option<Expression>) -> Option<SpecExpr> {
    match o {
        Some(e) => Some(e@),
        None => None,
    }
}

/// The model of a map literal.
pub open spec fn map_view(m: Seq<(String, Expression)>) -> Seq<(Seq<char>, SpecExpr)> {
    m.map_values(|kv: (String, Expression)| (kv.0@, kv.1@))
}

/// The model of an optional map literal.
pub open spec fn opt_map(o: Option<MapLiteral>) -> Option<Seq<(Seq<char>, SpecExpr)>> {
    match o {
        Some(m) => Some(map_view(m@)),
        None => None,
    }
}

/// Model of a [`ReturnItem`].
pub struct SpecReturnItem {
    pub expr: SpecExpr,
    pub alias: Option<Seq<char>>,
}

impl View for ReturnItem {
    type V = SpecReturnItem;

    open spec fn view(&self) -> SpecReturnItem {
        SpecReturnItem { expr: self.expr@, alias: opt_str(self.alias) }
    }
}

/// Model of an [`OrderItem`].
pub struct SpecOrderItem {
    pub expr: SpecExpr,
    pub ascending: bool,
}

impl View for OrderItem {
    type V = SpecOrderItem;

    open spec fn view(&self) -> SpecOrderItem {
        SpecOrderItem { expr: self.expr@, ascending: self.ascending }
    }
}

/// Model of a [`SetItem`].
pub enum SpecSetItem {
    Property { target: SpecExpr, value: SpecExpr },
}

impl View for SetItem {
    type V = SpecSetItem;

    open spec fn view(&self) -> SpecSetItem {
        match self {
            SetItem::Property { target, value } => SpecSetItem::Property {
                target: target@,
                value: value@,
            },
        }
    }
}

/// Model of a [`RemoveItem`].
pub enum SpecRemoveItem {
    Property(SpecExpr),
    Label { variable: Seq<char>, label: Seq<char> },
}

impl View for RemoveItem {
    type V = SpecRemoveItem;

    open spec fn view(&self) -> SpecRemoveItem {
        match self {
            RemoveItem::Property(e) => SpecRemoveItem::Property(e@),
            RemoveItem::Label { variable, label } => SpecRemoveItem::Label {
                variable: variable@,
                label: label@,
            },
        }
    }
}

/// Model of a [`NodePattern`].
pub struct SpecNodePattern {
    pub variable: Option<Seq<char>>,
    pub labels: Seq<Seq<char>>,
    pub properties: Option<Seq<(Seq<char>, SpecExpr)>>,
}

impl View for NodePattern {
    type V = SpecNodePattern;

    open spec fn view(&self) -> SpecNodePattern {
        SpecNodePattern {
            variable: opt_str(self.variable),
            labels: strs_view(self.labels@),
            properties: opt_map(self.properties),
        }
    }
}

/// Model of a [`RelationshipPattern`].
pub struct SpecRelPattern {
    pub variable: Option<Seq<char>>,
    pub rel_types: Seq<Seq<char>>,
    pub direction: RelDirection,
    pub properties: Option<Seq<(Seq<char>, SpecExpr)>>,
    pub min_hops: Option<u32>,
    pub max_hops: Option<u32>,
}

impl View for RelationshipPattern {
    type V = SpecRelPattern;

    open spec fn view(&self) -> SpecRelPattern {
        SpecRelPattern {
            variable: opt_str(self.variable),
            rel_types: strs_view(self.rel_types@),
            direction: self.direction,
            properties: opt_map(self.properties),
            min_hops: self.min_hops,
            max_hops: self.max_hops,
        }
    }
}

/// Model of a [`PatternElement`].
pub enum SpecPatternElement {
    Node(SpecNodePattern),
    Relationship(SpecRelPattern),
}

impl View for PatternElement {
    type V = SpecPatternElement;

    open spec fn view(&self) -> SpecPatternElement {
        match self {
            PatternElement::Node(n) => SpecPatternElement::Node(n@),
            PatternElement::Relationship(r) => SpecPatternElement::Relationship(r@),
        }
    }
}

impl View for PatternChain {
    type V = Seq<SpecPatternElement>;

    open spec fn view(&self) -> Seq<SpecPatternElement> {
        self.elements@.map_values(|e: PatternElement| e@)
    }
}

impl View for Pattern {
    type V = Seq<Seq<SpecPatternElement>>;

    open spec fn view(&self) -> Seq<Seq<SpecPatternElement>> {
        self.chains@.map_values(|c: PatternChain| c@)
    }
}

/// The models of return items.
pub open spec fn return_items_view(v: Seq<ReturnItem>) -> Seq<SpecReturnItem> {
    v.map_values(|i: ReturnItem| i@)
}

/// The models of order items.
pub open spec fn order_items_view(v: Seq<OrderItem>) -> Seq<SpecOrderItem> {
    v.map_values(|i: OrderItem| i@)
}

/// The models of SET items.
pub open spec fn set_items_view(v: Seq<SetItem>) -> Seq<SpecSetItem> {
    v.map_values(|i: SetItem| i@)
}

/// The models of REMOVE items.
pub open spec fn remove_items_view(v: Seq<RemoveItem>) -> Seq<SpecRemoveItem> {
    v.map_values(|i: RemoveItem| i@)
}

/// Model of a [`TemporalPredicate`].
pub enum SpecTemporal {
    AsOf(SpecExpr),
    Between(SpecExpr, SpecExpr),
}

impl View for TemporalPredicate {
    type V = SpecTemporal;

    open spec fn view(&self) -> SpecTemporal {
        match self {
            TemporalPredicate::AsOf(e) => SpecTemporal::AsOf(e@),
            TemporalPredicate::Between(a, b) => SpecTemporal::Between(a@, b@),
        }
    }
}

/// The model of an optional temporal predicate.
pub open spec fn opt_temporal(o: Option<TemporalPredicate>) -> Option<SpecTemporal> {
    match o {
        Some(t) => Some(t@),
        None => None,
    }
}

/// The model of an optional ORDER BY list.
pub open spec fn opt_order(o: Option<Vec<OrderItem>>) -> Option<Seq<SpecOrderItem>> {
    match o {
        Some(v) => Some(order_items_view(v@)),
        None => None,
    }
}

/// Model of a [`MatchClause`].
pub struct SpecMatchClause {
    pub optional: bool,
    pub pattern: Seq<Seq<SpecPatternElement>>,
    pub temporal: Option<SpecTemporal>,
    pub where_clause: Option<SpecExpr>,
}

impl View for MatchClause {
    type V = SpecMatchClause;

    open spec fn view(&self) -> SpecMatchClause {
        SpecMatchClause {
            optional: self.optional,
            pattern: self.pattern@,
            temporal: opt_temporal(self.temporal_predicate),
            where_clause: opt_expr(self.where_clause),
        }
    }
}

/// Model of a [`ReturnClause`].
pub struct SpecReturnClause {
    pub distinct: bool,
    pub items: Seq<SpecReturnItem>,
    pub order_by: Option<Seq<SpecOrderItem>>,
    pub skip: Option<SpecExpr>,
    pub limit: Option<SpecExpr>,
}

impl View for ReturnClause {
    type V = SpecReturnClause;

    open spec fn view(&self) -> SpecReturnClause {
        SpecReturnClause {
            distinct: self.distinct,
            items: return_items_view(self.items@),
            order_by: opt_order(self.order_by),
            skip: opt_expr(self.skip),
            limit: opt_expr(self.limit),
        }
    }
}

/// Model of a [`WithClause`].
pub struct SpecWithClause {
    pub distinct: bool,
    pub items: Seq<SpecReturnItem>,
    pub where_clause: Option<SpecExpr>,
}

impl View for WithClause {
    type V = SpecWithClause;

    open spec fn view(&self) -> SpecWithClause {
        SpecWithClause {
            distinct: self.distinct,
            items: return_items_view(self.items@),
            where_clause: opt_expr(self.where_clause),
        }
    }
}

/// Model of a [`MergeClause`].
pub struct SpecMergeClause {
    pub pattern: Seq<Seq<SpecPatternElement>>,
    pub on_match: Seq<SpecSetItem>,
    pub on_create: Seq<SpecSetItem>,
}

impl View for MergeClause {
    type V = SpecMergeClause;

    open spec fn view(&self) -> SpecMergeClause {
        SpecMergeClause {
            pattern: self.pattern@,
            on_match: set_items_view(self.on_match@),
            on_create: set_items_view(self.on_create@),
        }
    }
}

/// Model of a [`DeleteClause`].
pub struct SpecDeleteClause {
    pub detach: bool,
    pub exprs: Seq<SpecExpr>,
}

impl View for DeleteClause {
    type V = SpecDeleteClause;

    open spec fn view(&self) -> SpecDeleteClause {
        SpecDeleteClause { detach: self.detach, exprs: exprs_view(self.exprs@) }
    }
}

/// Model of an [`UnwindClause`].
pub struct SpecUnwindClause {
    pub expr: SpecExpr,
    pub variable: Seq<char>,
}

impl View for UnwindClause {
    type V = SpecUnwindClause;

    open spec fn view(&self) -> SpecUnwindClause {
        SpecUnwindClause { expr: self.expr@, variable: self.variable@ }
    }
}

/// Model of a [`CreateIndexClause`]: its name, whether it indexes
/// relationships (else nodes), the label or type, and the property.
pub struct SpecIndexClause {
    pub name: Option<Seq<char>>,
    pub on_edges: bool,
    pub target: Seq<char>,
    pub property: Seq<char>,
}

impl View for CreateIndexClause {
    type V = SpecIndexClause;

    open spec fn view(&self) -> SpecIndexClause {
        SpecIndexClause {
            name: opt_str(self.name),
            on_edges: self.target is RelationshipType,
            target: match self.target {
                IndexTarget::NodeLabel(l) => l@,
                IndexTarget::RelationshipType(t) => t@,
            },
            property: self.property@,
        }
    }
}

/// Model of a [`Clause`].
pub enum SpecClause {
    Match(SpecMatchClause),
    Return(SpecReturnClause),
    Create(Seq<Seq<SpecPatternElement>>),
    SetProperties(Seq<SpecSetItem>),
    Remove(Seq<SpecRemoveItem>),
    Delete(SpecDeleteClause),
    With(SpecWithClause),
    Merge(SpecMergeClause),
    Unwind(SpecUnwindClause),
    CreateIndex(SpecIndexClause),
    DropIndex(Seq<char>),
}

impl View for Clause {
    type V = SpecClause;

    open spec fn view(&self) -> SpecClause {
        match self {
            Clause::Match(c) => SpecClause::Match(c@),
            Clause::Return(c) => SpecClause::Return(c@),
            Clause::Create(c) => SpecClause::Create(c.pattern@),
            Clause::SetProperties(c) => SpecClause::SetProperties(set_items_view(c.items@)),
            Clause::Remove(c) => SpecClause::Remove(remove_items_view(c.items@)),
            Clause::Delete(c) => SpecClause::Delete(c@),
            Clause::With(c) => SpecClause::With(c@),
            Clause::Merge(c) => SpecClause::Merge(c@),
            Clause::Unwind(c) => SpecClause::Unwind(c@),
            Clause::CreateIndex(c) => SpecClause::CreateIndex(c@),
            Clause::DropIndex(c) => SpecClause::DropIndex(c.name@),
        }
    }
}

/// The models of a list of clauses.
pub open spec fn clauses_view(v: Seq<Clause>) -> Seq<SpecClause> {
    v.map_values(|c: Clause| c@)
}

impl View for Query {
    type V = Seq<SpecClause>;

    open spec fn view(&self) -> Seq<SpecClause> {
        clauses_view(self.clauses@)
    }
}

// ---------------------------------------------------------------------------
// Copies that keep the model
// ---------------------------------------------------------------------------

/// Types whose values can be copied into an equal model.
pub trait DeepClone: View + Sized {
    /// A copy with the same model.
    fn deep_clone(&self) -> (r: Self)
        ensures
            r@ == self@,
    ;
}

/// A copy of a list, element by element, with the same models.
pub fn clone_vec<T: DeepClone>(v: &Vec<T>) -> (r: Vec<T>)
    ensures
        r@.len() == v@.len(),
        forall|i: int| 0 <= i < v@.len() ==> (#[trigger] r@[i])@ == v@[i]@,
{
    let mut out: Vec<T> = Vec::new();
    let mut i: usize = 0;
    while i < v.len()
        invariant
            i <= v.len(),
            out@.len() == i,
            forall|k: int| 0 <= k < i ==> (#[trigger] out@[k])@ == v@[k]@,
        decreases v.len() - i,
    {
        let e = v[i].deep_clone();
        out.push(e);
        i = i + 1;
    }
    out
}

/// A copy of a list of strings.
pub fn clone_strings(v: &Vec<String>) -> (r: Vec<String>)
    ensures
        strs_view(r@) == strs_view(v@),
{
    let mut out: Vec<String> = Vec::new();
    let mut i: usize = 0;
    while i < v.len()
        invariant
            i <= v.len(),
            out@.len() == i,
            forall|k: int| 0 <= k < i ==> (#[trigger] out@[k])@ == v@[k]@,
        decreases v.len() - i,
    {
        out.push(v[i].clone());
        i = i + 1;
    }
    assert(strs_view(out@) =~= strs_view(v@));
    out
}

/// A copy of an optional string.
pub fn clone_opt_string(o: &Option<String>) -> (r: Option<String>)
    ensures
        opt_str(r) == opt_str(*o),
{
    match o {
        Some(s) => Some(s.clone()),
        None => None,
    }
}

impl DeepClone for Literal {
    fn deep_clone(&self) -> (r: Self) {
        match self {
            Literal::Integer(n) => Literal::Integer(*n),
            Literal::Float(t) => Literal::Float(t.clone()),
            Literal::String(t) => Literal::String(t.clone()),
            Literal::Bool(b) => Literal::Bool(*b),
            Literal::Null => Literal::Null,
        }
    }
}

/// A copy of an expression with the same model.
pub fn clone_expr(e: &Expression) -> (r: Expression)
    ensures
        r@ == e@,
    decreases e, 1int,
{
    match e {
        Expression::Literal(l) => Expression::Literal(l.deep_clone()),
        Expression::Variable(v) => Expression::Variable(v.clone()),
        Expression::Property(b, p) => Expression::Property(Box::new(clone_expr(b)), p.clone()),
        Expression::Parameter(p) => Expression::Parameter(p.clone()),
        Expression::BinaryOp(op, l, r) => Expression::BinaryOp(
            *op,
            Box::new(clone_expr(l)),
            Box::new(clone_expr(r)),
        ),
        Expression::UnaryOp(op, b) => Expression::UnaryOp(*op, Box::new(clone_expr(b))),
        Expression::FunctionCall { name, distinct, args } => {
            let a = clone_exprs(args);
            Expression::FunctionCall { name: name.clone(), distinct: *distinct, args: a }
        },
        Expression::IsNull(b, n) => Expression::IsNull(Box::new(clone_expr(b)), *n),
        Expression::CountStar => Expression::CountStar,
        Expression::ListLiteral(items) => Expression::ListLiteral(clone_exprs(items)),
    }
}

impl Clone for Expression {
    fn clone(&self) -> (r: Self)
        ensures
            r@ == self@,
    {
        clone_expr(self)
    }
}

/// A copy of a list of expressions with the same models.
pub fn clone_exprs(v: &Vec<Expression>) -> (r: Vec<Expression>)
    ensures
        exprs_view(r@) == exprs_view(v@),
    decreases v@, 0int,
{
    let mut out: Vec<Expression> = Vec::new();
    let mut i: usize = 0;
    while i < v.len()
        invariant
            i <= v.len(),
            out@.len() == i,
            forall|k: int| 0 <= k < i ==> (#[trigger] out@[k])@ == v@[k]@,
        decreases v.len() - i,
    {
        proof {
            assert(decreases_to!(v@ => v@[i as int]));
        }
        let c = clone_expr(&v[i]);
        out.push(c);
        i = i + 1;
    }
    proof {
        lemma_exprs_view(out@);
        lemma_exprs_view(v@);
        assert(exprs_view(out@) =~= exprs_view(v@));
    }
    out
}

impl DeepClone for Expression {
    fn deep_clone(&self) -> (r: Self) {
        clone_expr(self)
    }
}

/// A copy of an optional expression.
pub fn clone_opt_expr(o: &Option<Expression>) -> (r: Option<Expression>)
    ensures
        opt_expr(r) == opt_expr(*o),
{
    match o {
        Some(e) => Some(clone_expr(e)),
        None => None,
    }
}

/// A copy of a map literal.
pub fn clone_map(m: &MapLiteral) -> (r: MapLiteral)
    ensures
        map_view(r@) == map_view(m@),
{
    let mut out: MapLiteral = Vec::new();
    let mut i: usize = 0;
    while i < m.len()
        invariant
            i <= m.len(),
            out@.len() == i,
            forall|k: int|
                0 <= k < i ==> (#[trigger] out@[k]).0@ == m@[k].0@ && out@[k].1@ == m@[k].1@,
        decreases m.len() - i,
    {
        let k = m[i].0.clone();
        let v = clone_expr(&m[i].1);
        out.push((k, v));
        i = i + 1;
    }
    assert(map_view(out@) =~= map_view(m@));
    out
}

/// A copy of an optional map literal.
pub fn clone_opt_map(o: &Option<MapLiteral>) -> (r: Option<MapLiteral>)
    ensures
        opt_map(r) == opt_map(*o),
{
    match o {
        Some(m) => Some(clone_map(m)),
        None => None,
    }
}

impl DeepClone for ReturnItem {
    fn deep_clone(&self) -> (r: Self) {
        ReturnItem { expr: clone_expr(&self.expr), alias: clone_opt_string(&self.alias) }
    }
}

impl DeepClone for OrderItem {
    fn deep_clone(&self) -> (r: Self) {
        OrderItem { expr: clone_expr(&self.expr), ascending: self.ascending }
    }
}

impl DeepClone for SetItem {
    fn deep_clone(&self) -> (r: Self) {
        match self {
            SetItem::Property { target, value } => SetItem::Property {
                target: clone_expr(target),
                value: clone_expr(value),
            },
        }
    }
}

impl DeepClone for RemoveItem {
    fn deep_clone(&self) -> (r: Self) {
        match self {
            RemoveItem::Property(e) => RemoveItem::Property(clone_expr(e)),
            RemoveItem::Label { variable, label } => RemoveItem::Label {
                variable: variable.clone(),
                label: label.clone(),
            },
        }
    }
}

impl DeepClone for NodePattern {
    fn deep_clone(&self) -> (r: Self) {
        NodePattern {
            variable: clone_opt_string(&self.variable),
            labels: clone_strings(&self.labels),
            properties: clone_opt_map(&self.properties),
        }
    }
}

impl DeepClone for RelationshipPattern {
    fn deep_clone(&self) -> (r: Self) {
        RelationshipPattern {
            variable: clone_opt_string(&self.variable),
            rel_types: clone_strings(&self.rel_types),
            direction: self.direction,
            properties: clone_opt_map(&self.properties),
            min_hops: self.min_hops,
            max_hops: self.max_hops,
        }
    }
}

impl DeepClone for PatternElement {
    fn deep_clone(&self) -> (r: Self) {
        match self {
            PatternElement::Node(n) => PatternElement::Node(n.deep_clone()),
            PatternElement::Relationship(rp) => PatternElement::Relationship(rp.deep_clone()),
        }
    }
}

impl DeepClone for PatternChain {
    fn deep_clone(&self) -> (r: Self) {
        let e = clone_vec(&self.elements);
        let r = PatternChain { elements: e };
        assert(r@ =~= self@);
        r
    }
}

impl DeepClone for Pattern {
    fn deep_clone(&self) -> (r: Self) {
        let c = clone_vec(&self.chains);
        let r = Pattern { chains: c };
        assert(r@ =~= self@);
        r
    }
}

} // verus!
