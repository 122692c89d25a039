use vstd::prelude::*;

verus! {

/// The kind of a node of the parse tree: the grammar rule that it matched.
#[derive(Debug, Clone, Copy, PartialEq, Eq, Hash)]
pub enum Rule {
    /// A pipeline: a source stage and the stages that follow it.
    Pipeline,
    /// A `unify` stage.
    Unify,
    /// A `with` clause inside `unify`.
    WithUnify,
    /// A `with` stage of a pipeline.
    WithTail,
    /// A `rel` source: an expression and its bindings.
    Rel,
    /// A `from` source: a table and its bindings or options.
    From,
    /// The table that a `from` reads.
    Table,
    /// What follows the table in a `from`.
    FromOpts,
    /// The vector form of the options of a `from`.
    FromOptionVec,
    /// The map form of the options of a `from`.
    FromOptsMap,
    /// The map of a `with` stage.
    WithTailMap,
    /// The map of a `with` clause.
    WithUnifyMap,
    /// The map of a `return` stage.
    ReturnMap,
    /// A `join` clause: a query and its bindings.
    Join,
    /// A `left-join` clause: a query and its bindings.
    LeftJoin,
    /// An `order-by` stage.
    OrderBy,
    /// One ordering given as a map.
    OrderBySpecMap,
    /// The `:val` entry of an ordering.
    OrderBySpecMapVal,
    /// The `:dir` entry of an ordering.
    OrderBySpecMapDir,
    /// The `:nulls` entry of an ordering.
    OrderBySpecMapNulls,
    /// One ordering given as a column alone.
    OrderByCol,
    /// An `aggregate` stage.
    Aggregate,
    /// A map of aggregate columns.
    GroupingMap,
    /// A grouping column.
    GroupingVar,
    /// A `return` stage.
    Return,
    /// A column returned under its own name.
    ReturnVar,
    /// A `where` stage.
    Where,
    /// A `without` stage.
    Without,
    /// A `limit` stage.
    Limit,
    /// An `offset` stage.
    Offset,
    /// An `unnest` stage of a pipeline.
    UnnestTail,
    /// An `unnest` clause inside `unify`.
    UnnestUnify,
    /// What an `unnest` stage unnests: a column and an expression.
    UnnestTailSpec,
    /// What an `unnest` clause unnests: a variable and an expression.
    UnnestUnifySpec,
    /// The temporal filter `at`.
    AtTempFilter,
    /// The temporal filter `from`.
    FromTempFilter,
    /// The temporal filter `to`.
    ToTempFilter,
    /// The temporal filter `in`.
    InTempFilter,
    /// The option `:for-valid-time`.
    ValidTimeKV,
    /// The option `:for-system-time`.
    SystemTimeKV,
    /// The option `:bind`.
    BindKV,
    /// One argument binding.
    ArgSpec,
    /// A list of argument bindings.
    ArgSpecs,
    /// A list of bindings.
    BindSpecs,
    /// A column bound to the variable of its own name.
    BindVar,
    /// A map from columns to what they are bound to.
    BindMap,
    /// The namespace in front of a namespaced map.
    Namespace,
    /// A binding map whose keys share a namespace.
    NamespacedBindMap,
    /// The `:args` option of a subquery.
    Args,
    /// A call: a function and its arguments.
    CallExpr,
    /// A tagged literal: a tag and a value.
    TaggedValueExpr,
    /// A map literal.
    MapExpr,
    /// A map literal with at least one entry.
    NonEmptyMapExpr,
    /// A vector literal with at least one item.
    NonEmptyVectorExpr,
    /// A set literal with at least one item.
    NonEmptySetExpr,
    /// The empty map literal.
    EmptyMapExpr,
    /// The empty vector literal.
    EmptyVectorExpr,
    /// The empty set literal.
    EmptySetExpr,
    /// A reference to a logic variable.
    VariableExpr,
    /// A reference to a parameter.
    ParamExpr,
    /// A `pull` subquery.
    PullExpr,
    /// A `pull*` subquery.
    PullManyExpr,
    /// An `exists` subquery.
    ExistsExpr,
    /// A `q` subquery.
    SubqueryExpr,
    /// The function of a call.
    Function,
    /// The name of a logic variable.
    LogicVar,
    /// A key of a map literal.
    MapKey,
    /// A string literal with its quotes.
    String,
    /// A column: a name behind a sigil.
    Column,
    /// A keyword: a name behind a sigil.
    Keyword,
    /// A bare name.
    Symbol,
    /// What stands between the quotes of a string literal.
    StringContent,
    /// A count, as `limit` and `offset` take.
    NonNegativeInteger,
    /// A floating-point literal.
    F64,
    /// An integer literal.
    I64,
    /// `true` or `false`.
    Bool,
    /// `nil`.
    Nil,
    /// The direction of an ordering.
    Direction,
    /// Where an ordering puts nulls.
    NullOrdering,
    /// A whole query; it has no value of its own.
    Query,
    /// The end of the input; it has no value.
    EOI,
}

/// What a rule takes from the children of its node.
#[derive(Debug, Clone, Copy, PartialEq, Eq)]
pub enum Shape {
    /// The rule has no value: a node of it cannot be transformed.
    Unsupported,
    /// The value comes from the text alone; children are not looked at.
    Leaf,
    /// The value comes from the first child; there is at least one.
    One,
    /// The value comes from the first two children; there are at least two.
    Two,
    /// The value comes from all the children, however many.
    Many,
    /// The value comes from a first child and all that follow it.
    Head,
    /// The children are keys and values in turn, an even number in all.
    Pairs,
    /// A first child, then keys and values in turn.
    HeadPairs,
}

/// What `rule` takes from the children of its node.
pub open spec fn shape_of(rule: Rule) -> Shape {
    match rule {
        Rule::EmptyMapExpr | Rule::EmptyVectorExpr | Rule::EmptySetExpr | Rule::Column
        | Rule::Keyword | Rule::Symbol | Rule::StringContent | Rule::NonNegativeInteger
        | Rule::F64 | Rule::I64 | Rule::Bool | Rule::Nil | Rule::Direction
        | Rule::NullOrdering => Shape::Leaf,
        Rule::Table | Rule::FromOpts | Rule::FromOptionVec | Rule::OrderBySpecMapVal
        | Rule::OrderBySpecMapDir | Rule::OrderBySpecMapNulls | Rule::OrderByCol
        | Rule::GroupingVar | Rule::ReturnVar | Rule::Limit | Rule::Offset | Rule::UnnestTail
        | Rule::UnnestUnify | Rule::AtTempFilter | Rule::FromTempFilter | Rule::ToTempFilter
        | Rule::ValidTimeKV | Rule::SystemTimeKV | Rule::BindKV | Rule::ArgSpec | Rule::BindVar
        | Rule::Namespace | Rule::Args | Rule::VariableExpr | Rule::ParamExpr | Rule::Function
        | Rule::LogicVar | Rule::MapKey | Rule::String => Shape::One,
        Rule::Rel | Rule::From | Rule::UnnestTailSpec | Rule::UnnestUnifySpec
        | Rule::TaggedValueExpr | Rule::PullExpr | Rule::PullManyExpr | Rule::ExistsExpr
        | Rule::SubqueryExpr => Shape::Two,
        Rule::Pipeline | Rule::Unify | Rule::WithUnify | Rule::WithTail | Rule::FromOptsMap
        | Rule::OrderBy | Rule::OrderBySpecMap | Rule::Aggregate | Rule::Return | Rule::Where
        | Rule::Without | Rule::InTempFilter | Rule::ArgSpecs | Rule::BindSpecs
        | Rule::NonEmptyVectorExpr | Rule::NonEmptySetExpr => Shape::Many,
        Rule::Join | Rule::LeftJoin | Rule::CallExpr => Shape::Head,
        Rule::WithTailMap | Rule::WithUnifyMap | Rule::ReturnMap | Rule::GroupingMap
        | Rule::BindMap | Rule::MapExpr | Rule::NonEmptyMapExpr => Shape::Pairs,
        Rule::NamespacedBindMap => Shape::HeadPairs,
        Rule::Query | Rule::EOI => Shape::Unsupported,
    }
}

/// Whether a node of this shape may have `count` children.
pub open spec fn children_fit(shape: Shape, count: nat) -> bool {
    match shape {
        Shape::Unsupported => false,
        Shape::Leaf | Shape::Many => true,
        Shape::One | Shape::Head => count >= 1,
        Shape::Two => count >= 2,
        Shape::Pairs => count % 2 == 0,
        Shape::HeadPairs => count % 2 == 1,
    }
}

/// How many of its `count` children a node of this shape is transformed from:
/// they are the first ones.
pub open spec fn children_used(shape: Shape, count: nat) -> nat {
    match shape {
        Shape::Unsupported | Shape::Leaf => 0,
        Shape::One => 1,
        Shape::Two => 2,
        Shape::Many | Shape::Head | Shape::Pairs | Shape::HeadPairs => count,
    }
}

/// The key under which `rule` puts its value or its first child; empty for a
/// rule that has no such key.
pub open spec fn key_of(rule: Rule) -> Seq<char> {
    match rule {
        Rule::Unify => "unify"@,
        Rule::WithUnify | Rule::WithTail => "with"@,
        Rule::Rel => "rel"@,
        Rule::From | Rule::FromTempFilter => "from"@,
        Rule::Join => "join"@,
        Rule::LeftJoin => "leftJoin"@,
        Rule::OrderBy => "orderBy"@,
        Rule::OrderBySpecMapVal => "val"@,
        Rule::OrderBySpecMapDir => "dir"@,
        Rule::OrderBySpecMapNulls => "nulls"@,
        Rule::Aggregate => "aggregate"@,
        Rule::GroupingVar | Rule::VariableExpr => "xt:lvar"@,
        Rule::Return => "return"@,
        Rule::Where => "where"@,
        Rule::Without => "without"@,
        Rule::Limit => "limit"@,
        Rule::Offset => "offset"@,
        Rule::UnnestTail | Rule::UnnestUnify => "unnest"@,
        Rule::AtTempFilter => "at"@,
        Rule::ToTempFilter => "to"@,
        Rule::InTempFilter => "in"@,
        Rule::ValidTimeKV => "forValidTime"@,
        Rule::SystemTimeKV => "forSystemTime"@,
        Rule::BindKV => "bind"@,
        Rule::Args => "args"@,
        Rule::CallExpr => "xt:call"@,
        Rule::PullExpr => "xt:pull"@,
        Rule::PullManyExpr => "xt:pullMany"@,
        Rule::ExistsExpr => "xt:exists"@,
        Rule::SubqueryExpr => "xt:q"@,
        _ => ""@,
    }
}

/// What `rule` takes from the children of its node.
pub fn shape(rule: Rule) -> (shape: Shape)
    ensures
        shape == shape_of(rule),
{
    match rule {
        Rule::EmptyMapExpr | Rule::EmptyVectorExpr | Rule::EmptySetExpr | Rule::Column
        | Rule::Keyword | Rule::Symbol | Rule::StringContent | Rule::NonNegativeInteger
        | Rule::F64 | Rule::I64 | Rule::Bool | Rule::Nil | Rule::Direction
        | Rule::NullOrdering => Shape::Leaf,
        Rule::Table | Rule::FromOpts | Rule::FromOptionVec | Rule::OrderBySpecMapVal
        | Rule::OrderBySpecMapDir | Rule::OrderBySpecMapNulls | Rule::OrderByCol
        | Rule::GroupingVar | Rule::ReturnVar | Rule::Limit | Rule::Offset | Rule::UnnestTail
        | Rule::UnnestUnify | Rule::AtTempFilter | Rule::FromTempFilter | Rule::ToTempFilter
        | Rule::ValidTimeKV | Rule::SystemTimeKV | Rule::BindKV | Rule::ArgSpec | Rule::BindVar
        | Rule::Namespace | Rule::Args | Rule::VariableExpr | Rule::ParamExpr | Rule::Function
        | Rule::LogicVar | Rule::MapKey | Rule::String => Shape::One,
        Rule::Rel | Rule::From | Rule::UnnestTailSpec | Rule::UnnestUnifySpec
        | Rule::TaggedValueExpr | Rule::PullExpr | Rule::PullManyExpr | Rule::ExistsExpr
        | Rule::SubqueryExpr => Shape::Two,
        Rule::Pipeline | Rule::Unify | Rule::WithUnify | Rule::WithTail | Rule::FromOptsMap
        | Rule::OrderBy | Rule::OrderBySpecMap | Rule::Aggregate | Rule::Return | Rule::Where
        | Rule::Without | Rule::InTempFilter | Rule::ArgSpecs | Rule::BindSpecs
        | Rule::NonEmptyVectorExpr | Rule::NonEmptySetExpr => Shape::Many,
        Rule::Join | Rule::LeftJoin | Rule::CallExpr => Shape::Head,
        Rule::WithTailMap | Rule::WithUnifyMap | Rule::ReturnMap | Rule::GroupingMap
        | Rule::BindMap | Rule::MapExpr | Rule::NonEmptyMapExpr => Shape::Pairs,
        Rule::NamespacedBindMap => Shape::HeadPairs,
        Rule::Query | Rule::EOI => Shape::Unsupported,
    }
}

/// Whether a node of this shape may have `count` children.
pub fn fits(shape: Shape, count: usize) -> (ok: bool)
    ensures
        ok == children_fit(shape, count as nat),
{
    match shape {
        Shape::Unsupported => false,
        Shape::Leaf | Shape::Many => true,
        Shape::One | Shape::Head => count >= 1,
        Shape::Two => count >= 2,
        Shape::Pairs => count % 2 == 0,
        Shape::HeadPairs => count % 2 == 1,
    }
}

/// How many of its `count` children a node of this shape is transformed from.
pub fn used(shape: Shape, count: usize) -> (n: usize)
    ensures
        n == children_used(shape, count as nat),
{
    match shape {
        Shape::Unsupported | Shape::Leaf => 0,
        Shape::One => 1,
        Shape::Two => 2,
        Shape::Many | Shape::Head | Shape::Pairs | Shape::HeadPairs => count,
    }
}

/// The key under which `rule` puts its value or its first child; empty for a
/// rule that has no such key.
pub fn key_for(rule: Rule) -> (key: &'static str)
    ensures
        key@ == key_of(rule),
{
    match rule {
        Rule::Unify => "unify",
        Rule::WithUnify | Rule::WithTail => "with",
        Rule::Rel => "rel",
        Rule::From | Rule::FromTempFilter => "from",
        Rule::Join => "join",
        Rule::LeftJoin => "leftJoin",
        Rule::OrderBy => "orderBy",
        Rule::OrderBySpecMapVal => "val",
        Rule::OrderBySpecMapDir => "dir",
        Rule::OrderBySpecMapNulls => "nulls",
        Rule::Aggregate => "aggregate",
        Rule::GroupingVar | Rule::VariableExpr => "xt:lvar",
        Rule::Return => "return",
        Rule::Where => "where",
        Rule::Without => "without",
        Rule::Limit => "limit",
        Rule::Offset => "offset",
        Rule::UnnestTail | Rule::UnnestUnify => "unnest",
        Rule::AtTempFilter => "at",
        Rule::ToTempFilter => "to",
        Rule::InTempFilter => "in",
        Rule::ValidTimeKV => "forValidTime",
        Rule::SystemTimeKV => "forSystemTime",
        Rule::BindKV => "bind",
        Rule::Args => "args",
        Rule::CallExpr => "xt:call",
        Rule::PullExpr => "xt:pull",
        Rule::PullManyExpr => "xt:pullMany",
        Rule::ExistsExpr => "xt:exists",
        Rule::SubqueryExpr => "xt:q",
        _ => "",
    }
}

} // verus!
