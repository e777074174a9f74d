//! The trusted boundary to the `sqlparser` crate. Every wrapper here is a
//! pass from SQL bytes to plain values or to SQL bytes: it parses its
//! input under the generic dialect, reads or edits one thing, and hands
//! back the serialization. Each pass is a pure function of its byte
//! inputs, so its result carries a name, and the contracts say no more
//! than `sqlparser`'s source shows.

use sqlparser::ast::Expr;
use sqlparser::ast::Join;
use sqlparser::ast::JoinConstraint;
use sqlparser::ast::JoinOperator;
use sqlparser::ast::JoinOperator::Anti;
use sqlparser::ast::JoinOperator::ArrayJoin;
use sqlparser::ast::JoinOperator::AsOf;
use sqlparser::ast::JoinOperator::CrossApply;
use sqlparser::ast::JoinOperator::CrossJoin;
use sqlparser::ast::JoinOperator::FullOuter;
use sqlparser::ast::JoinOperator::Inner;
use sqlparser::ast::JoinOperator::InnerArrayJoin;
use sqlparser::ast::JoinOperator::Join as JoinAny;
use sqlparser::ast::JoinOperator::Left;
use sqlparser::ast::JoinOperator::LeftAnti;
use sqlparser::ast::JoinOperator::LeftArrayJoin;
use sqlparser::ast::JoinOperator::LeftOuter;
use sqlparser::ast::JoinOperator::LeftSemi;
use sqlparser::ast::JoinOperator::OuterApply;
use sqlparser::ast::JoinOperator::Right;
use sqlparser::ast::JoinOperator::RightAnti;
use sqlparser::ast::JoinOperator::RightOuter;
use sqlparser::ast::JoinOperator::RightSemi;
use sqlparser::ast::JoinOperator::Semi;
use sqlparser::ast::JoinOperator::StraightJoin;
use sqlparser::ast::Select;
use sqlparser::ast::SelectItem;
use sqlparser::ast::TableFactor;
use sqlparser::ast::Value;
use sqlparser::dialect::GenericDialect;
use sqlparser::parser::Parser;
use vstd::prelude::*;
use vstd::utf8::decode_utf8;
use vstd::utf8::encode_utf8;
use vstd::utf8::valid_utf8;

use crate::text::replace_all_spec;

verus! {

/// Whether `sqlparser`'s generic dialect accepts these bytes as a SELECT.
pub uninterp spec fn select_parses(s: Seq<u8>) -> bool;

/// Whether `sqlparser`'s generic dialect accepts these bytes as an
/// expression.
pub uninterp spec fn expr_parses(s: Seq<u8>) -> bool;

/// Whether `sqlparser`'s generic dialect accepts these bytes as a table
/// factor.
pub uninterp spec fn table_factor_parses(s: Seq<u8>) -> bool;

/// The serialization of these bytes parsed as a query, if they parse.
pub uninterp spec fn query_normalized(s: Seq<u8>) -> Option<Seq<u8>>;

/// The pretty-printed form of these bytes parsed as a query, if they parse.
pub uninterp spec fn pretty_printed(s: Seq<u8>) -> Option<Seq<char>>;

/// How many FROM entries the SELECT parsed from these bytes has.
pub uninterp spec fn from_count_of(s: Seq<u8>) -> int;

/// Per projection item of the SELECT parsed from these bytes: its
/// identifier chain when the item is a plain or compound identifier.
pub uninterp spec fn projection_chains_of(s: Seq<u8>) -> Seq<Option<Seq<Seq<u8>>>>;

/// The name of the first FROM entry's base table, when it is a table.
pub uninterp spec fn base_name_of(s: Seq<u8>) -> Option<Seq<u8>>;

/// The alias of the first FROM entry's base table, when it has one.
pub uninterp spec fn base_alias_of(s: Seq<u8>) -> Option<Seq<u8>>;

/// The serialization of the SELECT's WHERE expression, if there is one.
pub uninterp spec fn where_text_of(s: Seq<u8>) -> Option<Seq<u8>>;

/// The SELECT reserialized with the given expression put first among its
/// projection items.
pub uninterp spec fn projection_prepended(s: Seq<u8>, item: Seq<u8>) -> Seq<u8>;

/// How many joins the first FROM entry of the parsed SELECT has.
pub uninterp spec fn join_count_of(s: Seq<u8>) -> int;

/// The operator variant of join `i`, as the code documented at
/// `sel_join_kind`.
pub uninterp spec fn join_kind_of(s: Seq<u8>, i: int) -> int;

/// The SELECT reserialized with join `i`'s operator turned into LEFT with
/// the same constraint.
pub uninterp spec fn join_promoted(s: Seq<u8>, i: int) -> Seq<u8>;

/// The SELECT reserialized with its WHERE replaced by the given
/// expression.
pub uninterp spec fn where_replaced(s: Seq<u8>, w: Seq<u8>) -> Seq<u8>;

/// The SELECT reserialized with its first FROM entry's base table replaced
/// by the given table factor.
pub uninterp spec fn base_table_replaced(s: Seq<u8>, t: Seq<u8>) -> Seq<u8>;

/// The SELECT reserialized with a LEFT JOIN of the given relation and ON
/// expression put first among the first FROM entry's joins.
pub uninterp spec fn join_prepended(s: Seq<u8>, rel: Seq<u8>, on: Seq<u8>) -> Seq<u8>;

/// When the expression parsed from these bytes is an equality whose right
/// side is a placeholder: the placeholder's text and, when the left side
/// is a compound identifier, its chain.
pub uninterp spec fn eq_placeholder_of(s: Seq<u8>) -> Option<(Option<Seq<Seq<u8>>>, Seq<u8>)>;

/// The serializations of a binary operation's two children, when the
/// expression parsed from these bytes is a binary operation.
pub uninterp spec fn binary_children_of(s: Seq<u8>) -> Option<(Seq<u8>, Seq<u8>)>;

/// The view of an optional byte vector.
pub open spec fn opt_bytes(o: Option<Vec<u8>>) -> Option<Seq<u8>> {
    match o {
        Some(v) => Some(v@),
        None => None,
    }
}

/// The view of an identifier chain.
pub open spec fn chain_view(o: Option<Vec<Vec<u8>>>) -> Option<Seq<Seq<u8>>> {
    match o {
        Some(v) => Some(v@.map_values(|x: Vec<u8>| x@)),
        None => None,
    }
}

/// The view of a projection's identifier chains.
pub open spec fn chains_view(v: Seq<Option<Vec<Vec<u8>>>>) -> Seq<Option<Seq<Seq<u8>>>> {
    v.map_values(|o: Option<Vec<Vec<u8>>>| chain_view(o))
}

/// The view of an equality-with-placeholder decomposition.
pub open spec fn eq_view(o: Option<(Option<Vec<Vec<u8>>>, Vec<u8>)>) -> Option<
    (Option<Seq<Seq<u8>>>, Seq<u8>),
> {
    match o {
        Some((lhs, p)) => Some((chain_view(lhs), p@)),
        None => None,
    }
}

/// The view of a pair of child serializations.
pub open spec fn pair_view(o: Option<(Vec<u8>, Vec<u8>)>) -> Option<(Seq<u8>, Seq<u8>)> {
    match o {
        Some((l, r)) => Some((l@, r@)),
        None => None,
    }
}

#[verifier::external_type_specification]
#[verifier::external_body]
pub struct ExSelect(Select);

#[verifier::external_type_specification]
#[verifier::external_body]
pub struct ExExpr(Expr);

#[verifier::external_type_specification]
#[verifier::external_body]
pub struct ExTableFactor(TableFactor);

/// Relies on `Parser::try_with_sql` and `Parser::parse_select`: the shared
/// first step of every pass below; claims nothing of its own.
#[verifier::external_body]
fn parse_select_value(q: &[u8]) -> Result<Select, String> {
    let text = String::from_utf8_lossy(q).into_owned();
    let dialect = GenericDialect {};
    let parser = match Parser::new(&dialect).try_with_sql(&text) {
        Ok(p) => p,
        Err(e) => return Err(format!("{e}")),
    };
    let mut parser = parser;
    match parser.parse_select() {
        Ok(s) => Ok(s),
        Err(e) => Err(format!("{e}")),
    }
}

/// Relies on `Parser::try_with_sql` and `Parser::parse_expr`: the shared
/// first step of the expression passes; claims nothing of its own.
#[verifier::external_body]
fn parse_expr_value(q: &[u8]) -> Result<Expr, String> {
    let text = String::from_utf8_lossy(q).into_owned();
    let dialect = GenericDialect {};
    let parser = match Parser::new(&dialect).try_with_sql(&text) {
        Ok(p) => p,
        Err(e) => return Err(format!("{e}")),
    };
    let mut parser = parser;
    match parser.parse_expr() {
        Ok(e) => Ok(e),
        Err(e) => Err(format!("{e}")),
    }
}

/// Relies on `Parser::try_with_sql` and `Parser::parse_table_factor`: the
/// shared first step of the table-factor passes; claims nothing of its
/// own.
#[verifier::external_body]
fn parse_table_factor_value(q: &[u8]) -> Result<TableFactor, String> {
    let text = String::from_utf8_lossy(q).into_owned();
    let dialect = GenericDialect {};
    let parser = match Parser::new(&dialect).try_with_sql(&text) {
        Ok(p) => p,
        Err(e) => return Err(format!("{e}")),
    };
    let mut parser = parser;
    match parser.parse_table_factor() {
        Ok(t) => Ok(t),
        Err(e) => Err(format!("{e}")),
    }
}

/// Relies on `Expr::Identifier` and `Expr::CompoundIdentifier`: an
/// expression's identifier chain as plain bytes; claims nothing of its
/// own.
#[verifier::external_body]
fn ident_chain(e: &Expr) -> Option<Vec<Vec<u8>>> {
    match e {
        Expr::Identifier(id) => Some(vec![id.value.clone().into_bytes()]),
        Expr::CompoundIdentifier(ids) => Some(
            ids.iter().map(|x| x.value.clone().into_bytes()).collect(),
        ),
        _ => None,
    }
}

/// Relies on `Parser::try_with_sql`, `Parser::parse_select` and the `from`
/// field of `Select`: acceptance and FROM arity depend on the bytes alone.
#[verifier::external_body]
pub(crate) fn sel_from_len(q: &[u8]) -> (r: Result<usize, String>)
    ensures
        r is Ok <==> select_parses(q@),
        r matches Ok(n) ==> n as int == from_count_of(q@),
{
    let sel = parse_select_value(q)?;
    Ok(sel.from.len())
}

/// Relies on `Parser::parse_select`, `SelectItem` and `Expr`: hands out
/// each projection item's identifier chain, a function of the bytes alone.
#[verifier::external_body]
pub(crate) fn sel_projection_chains(q: &[u8]) -> (r: Result<Vec<Option<Vec<Vec<u8>>>>, String>)
    ensures
        r is Ok <==> select_parses(q@),
        r matches Ok(v) ==> chains_view(v@) == projection_chains_of(q@),
{
    let sel = parse_select_value(q)?;
    Ok(sel.projection.iter().map(|item| match item {
        SelectItem::UnnamedExpr(e) => ident_chain(e),
        _ => None,
    }).collect())
}

/// Relies on `Parser::parse_select`, `TableFactor::Table` and the
/// `Display` impl of `ObjectName`: the base table's name.
#[verifier::external_body]
pub(crate) fn sel_base_name(q: &[u8]) -> (r: Result<Option<Vec<u8>>, String>)
    ensures
        r is Ok <==> select_parses(q@),
        r matches Ok(o) ==> opt_bytes(o) == base_name_of(q@),
{
    let sel = parse_select_value(q)?;
    Ok(match sel.from.get(0) {
        Some(f) => match &f.relation {
            TableFactor::Table { name, .. } => Some(format!("{name}").into_bytes()),
            _ => None,
        },
        None => None,
    })
}

/// Relies on `Parser::parse_select`, `TableFactor::Table` and the
/// `Display` impl of `TableAlias`: the base table's alias, if any.
#[verifier::external_body]
pub(crate) fn sel_base_alias(q: &[u8]) -> (r: Result<Option<Vec<u8>>, String>)
    ensures
        r is Ok <==> select_parses(q@),
        r matches Ok(o) ==> opt_bytes(o) == base_alias_of(q@),
{
    let sel = parse_select_value(q)?;
    Ok(match sel.from.get(0) {
        Some(f) => match &f.relation {
            TableFactor::Table { alias: Some(a), .. } => Some(format!("{a}").into_bytes()),
            _ => None,
        },
        None => None,
    })
}

/// Relies on `Parser::parse_select` and the `Display` impl of `Expr`: the
/// WHERE expression's serialization, if there is one.
#[verifier::external_body]
pub(crate) fn sel_where_text(q: &[u8]) -> (r: Result<Option<Vec<u8>>, String>)
    ensures
        r is Ok <==> select_parses(q@),
        r matches Ok(o) ==> opt_bytes(o) == where_text_of(q@),
{
    let sel = parse_select_value(q)?;
    Ok(sel.selection.as_ref().map(|e| format!("{e}").into_bytes()))
}

/// Relies on `Parser::parse_select`, `Parser::parse_expr`, the
/// `projection` field and the `Display` impl of `Select`: the pass is a
/// function of its byte inputs.
#[verifier::external_body]
pub(crate) fn sel_prepend_projection(q: &[u8], item: &[u8]) -> (r: Result<Vec<u8>, String>)
    ensures
        r is Ok <==> (select_parses(q@) && expr_parses(item@)),
        r matches Ok(v) ==> v@ == projection_prepended(q@, item@),
{
    let mut sel = parse_select_value(q)?;
    let e = parse_expr_value(item)?;
    sel.projection.insert(0, SelectItem::UnnamedExpr(e));
    Ok(format!("{sel}").into_bytes())
}

/// Relies on `Parser::parse_select` and the `joins` field of
/// `TableWithJoins`: how many joins the first FROM entry has (none when
/// FROM is empty).
#[verifier::external_body]
pub(crate) fn sel_join_count(q: &[u8]) -> (r: Result<usize, String>)
    ensures
        r is Ok <==> select_parses(q@),
        r matches Ok(n) ==> n as int == join_count_of(q@),
{
    let sel = parse_select_value(q)?;
    Ok(match sel.from.get(0) {
        Some(f) => f.joins.len(),
        None => 0,
    })
}

/// Relies on `Parser::parse_select` and `JoinOperator`: the operator
/// variant of join `i` as a code, one per variant, in declaration order:
/// 0 Join, 1 Inner, 2 Left, 3 LeftOuter, 4 Right, 5 RightOuter,
/// 6 FullOuter, 7 CrossJoin, 8 Semi, 9 LeftSemi, 10 RightSemi, 11 Anti,
/// 12 LeftAnti, 13 RightAnti, 14 CrossApply, 15 OuterApply, 16 AsOf,
/// 17 StraightJoin, 18 ArrayJoin, 19 LeftArrayJoin, 20 InnerArrayJoin;
/// 255 when there is no such join.
#[verifier::external_body]
pub(crate) fn sel_join_kind(q: &[u8], i: usize) -> (r: Result<u8, String>)
    ensures
        r is Ok <==> select_parses(q@),
        r matches Ok(k) ==> k as int == join_kind_of(q@, i as int),
{
    let sel = parse_select_value(q)?;
    let join = match sel.from.get(0).and_then(|f| f.joins.get(i)) {
        Some(j) => j,
        None => return Ok(255),
    };
    Ok(match &join.join_operator {
        JoinAny(_) => 0, Inner(_) => 1, Left(_) => 2, LeftOuter(_) => 3, Right(_) => 4,
        RightOuter(_) => 5, FullOuter(_) => 6, CrossJoin(_) => 7, Semi(_) => 8, LeftSemi(_) => 9,
        RightSemi(_) => 10, Anti(_) => 11, LeftAnti(_) => 12, RightAnti(_) => 13, CrossApply => 14,
        OuterApply => 15, AsOf { .. } => 16, StraightJoin(_) => 17, ArrayJoin => 18,
        LeftArrayJoin => 19, InnerArrayJoin => 20,
    })
}

/// Relies on `Parser::parse_select`, `JoinOperator` and the `Display` impl
/// of `Select`: join `i`'s operator becomes LEFT with the constraint moved
/// out of its old variant; operators without a constraint, and an `i` out
/// of range, leave the SELECT as it stands.
#[verifier::external_body]
pub(crate) fn sel_promote_join(q: &[u8], i: usize) -> (r: Result<Vec<u8>, String>)
    ensures
        r is Ok <==> select_parses(q@),
        r matches Ok(v) ==> v@ == join_promoted(q@, i as int),
{
    let mut sel = parse_select_value(q)?;
    if let Some(join) = sel.from.get_mut(0).and_then(|f| f.joins.get_mut(i)) {
        let c = match &join.join_operator {
            JoinAny(c) | Inner(c) | Left(c) | LeftOuter(c) | Right(c) | RightOuter(c) | FullOuter(c) => Some(c.clone()),
            Semi(c) | LeftSemi(c) | RightSemi(c) | Anti(c) | LeftAnti(c) | RightAnti(c) | StraightJoin(c) | CrossJoin(c) => Some(c.clone()),
            AsOf { constraint, .. } => Some(constraint.clone()),
            _ => None,
        };
        if let Some(c) = c {
            join.join_operator = Left(c);
        }
    }
    Ok(format!("{sel}").into_bytes())
}

/// Relies on `Parser::parse_select`, `Parser::parse_expr`, the `selection`
/// field and the `Display` impl of `Select`.
#[verifier::external_body]
pub(crate) fn sel_replace_where(q: &[u8], w: &[u8]) -> (r: Result<Vec<u8>, String>)
    ensures
        r is Ok <==> (select_parses(q@) && expr_parses(w@)),
        r matches Ok(v) ==> v@ == where_replaced(q@, w@),
{
    let mut sel = parse_select_value(q)?;
    let e = parse_expr_value(w)?;
    sel.selection = Some(e);
    Ok(format!("{sel}").into_bytes())
}

/// Relies on `Parser::parse_select`, `Parser::parse_table_factor`, the
/// `relation` field of `TableWithJoins` and the `Display` impl of
/// `Select`; an empty FROM leaves the SELECT as it stands.
#[verifier::external_body]
pub(crate) fn sel_set_base_table(q: &[u8], t: &[u8]) -> (r: Result<Vec<u8>, String>)
    ensures
        r is Ok <==> (select_parses(q@) && table_factor_parses(t@)),
        r matches Ok(v) ==> v@ == base_table_replaced(q@, t@),
{
    let mut sel = parse_select_value(q)?;
    let factor = parse_table_factor_value(t)?;
    if let Some(f) = sel.from.get_mut(0) {
        f.relation = factor;
    }
    Ok(format!("{sel}").into_bytes())
}

/// Relies on `Parser::parse_select`, `Parser::parse_table_factor`,
/// `Parser::parse_expr`, `Join`, `JoinOperator::Left`,
/// `JoinConstraint::On` and the `Display` impl of `Select`; an empty FROM
/// leaves the SELECT as it stands.
#[verifier::external_body]
pub(crate) fn sel_prepend_left_join(q: &[u8], rel: &[u8], on: &[u8]) -> (r: Result<Vec<u8>, String>)
    ensures
        r is Ok <==> (select_parses(q@) && table_factor_parses(rel@) && expr_parses(on@)),
        r matches Ok(v) ==> v@ == join_prepended(q@, rel@, on@),
{
    let mut sel = parse_select_value(q)?;
    let relation = parse_table_factor_value(rel)?;
    let on_expr = parse_expr_value(on)?;
    if let Some(f) = sel.from.get_mut(0) {
        f.joins.insert(
            0,
            Join { relation, global: false, join_operator: JoinOperator::Left(JoinConstraint::On(on_expr)) },
        );
    }
    Ok(format!("{sel}").into_bytes())
}

/// Relies on `Parser::parse_expr`, `Expr::BinaryOp`, `BinaryOperator::Eq`
/// and `Value::Placeholder`: when the expression is an equality with a
/// placeholder on the right, hands out the placeholder and the left
/// side's identifier chain.
#[verifier::external_body]
pub(crate) fn expr_eq_placeholder(q: &[u8]) -> (r: Result<
    Option<(Option<Vec<Vec<u8>>>, Vec<u8>)>,
    String,
>)
    ensures
        r is Ok <==> expr_parses(q@),
        r matches Ok(o) ==> eq_view(o) == eq_placeholder_of(q@),
{
    let e = parse_expr_value(q)?;
    if let Expr::BinaryOp { left, op: sqlparser::ast::BinaryOperator::Eq, right } = &e {
        if let Expr::Value(v) = &**right {
            if let Value::Placeholder(p) = &v.value {
                let lhs = match &**left {
                    Expr::CompoundIdentifier(ids) => Some(ids.iter().map(|x| x.value.clone().into_bytes()).collect()),
                    _ => None,
                };
                return Ok(Some((lhs, p.clone().into_bytes())));
            }
        }
    }
    Ok(None)
}

/// Relies on `Parser::parse_expr`, `Expr::BinaryOp` and the `Display` impl
/// of `Expr`: the serializations of a binary operation's children.
#[verifier::external_body]
pub(crate) fn expr_children(q: &[u8]) -> (r: Result<Option<(Vec<u8>, Vec<u8>)>, String>)
    ensures
        r is Ok <==> expr_parses(q@),
        r matches Ok(o) ==> pair_view(o) == binary_children_of(q@),
{
    let e = parse_expr_value(q)?;
    Ok(match &e {
        Expr::BinaryOp { left, right, .. } => Some(
            (format!("{left}").into_bytes(), format!("{right}").into_bytes()),
        ),
        _ => None,
    })
}

/// Relies on `Parser::parse_query` and the `Display` impl of `Query`: both
/// are functions of the input bytes alone.
#[verifier::external_body]
pub(crate) fn parse_query_to_bytes(q: &[u8]) -> (r: Result<Vec<u8>, String>)
    ensures
        match r {
            Ok(v) => query_normalized(q@) == Some(v@),
            Err(_) => query_normalized(q@) is None,
        },
{
    let text = String::from_utf8_lossy(q).into_owned();
    let dialect = GenericDialect {};
    let parser = match Parser::new(&dialect).try_with_sql(&text) {
        Ok(p) => p,
        Err(e) => return Err(format!("{e}")),
    };
    let mut parser = parser;
    match parser.parse_query() {
        Ok(query) => Ok(format!("{query}").into_bytes()),
        Err(e) => Err(format!("{e}")),
    }
}

/// Relies on `Parser::parse_query` and the alternate `Display` form of
/// `Query`: the pretty-printed text is a function of the input bytes
/// alone.
#[verifier::external_body]
pub(crate) fn format_pretty(q: &[u8]) -> (r: Result<String, String>)
    ensures
        match r {
            Ok(s) => pretty_printed(q@) == Some(s@),
            Err(_) => pretty_printed(q@) is None,
        },
{
    let text = String::from_utf8_lossy(q).into_owned();
    let dialect = GenericDialect {};
    let parser = match Parser::new(&dialect).try_with_sql(&text) {
        Ok(p) => p,
        Err(e) => return Err(format!("{e}")),
    };
    let mut parser = parser;
    match parser.parse_query() {
        Ok(query) => Ok(format!("{query:#}")),
        Err(e) => Err(format!("{e}")),
    }
}

/// Relies on `String::from_utf8_lossy`: on valid UTF-8 the string holds
/// exactly the given bytes.
#[verifier::external_body]
pub(crate) fn bytes_to_string(b: &[u8]) -> (r: String)
    ensures
        valid_utf8(b@) ==> r@ == decode_utf8(b@) && encode_utf8(r@) == b@,
{
    String::from_utf8_lossy(b).into_owned()
}

/// Relies on `str::from_utf8` and `str::replace`: for a valid, nonempty
/// UTF-8 pattern, replacement happens at exactly the byte positions of the
/// pattern's non-overlapping occurrences, left to right (encoded patterns
/// only match at character boundaries); invalid patterns leave the string
/// as it stands.
#[verifier::external_body]
pub(crate) fn replace_str(s: &String, from: &[u8], to: &[u8]) -> (r: String)
    ensures
        (valid_utf8(from@) && valid_utf8(to@) && from@.len() > 0) ==> encode_utf8(r@)
            == replace_all_spec(encode_utf8(s@), from@, to@),
{
    match (std::str::from_utf8(from), std::str::from_utf8(to)) {
        (Ok(f), Ok(t)) if !f.is_empty() => s.replace(f, t),
        _ => s.clone(),
    }
}

} // verus!
