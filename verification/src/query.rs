//! The query-layer decisions the engine can make on plain values: projecting
//! a table schema onto requested columns, planning a remote-read request
//! into a table selector and filter list, selecting tables by a pattern, and
//! the DDL decisions for altering tables and creating roles.

use vstd::prelude::*;
use crate::errors::EngineError;
use crate::schema::{columns_view, ColumnType, TableColumn, TableColumnV, TskvTableSchema, TskvTableSchemaV};

verus! {

/// The name of the time column.
pub open spec fn spec_time_field() -> Seq<char> {
    seq!['t', 'i', 'm', 'e']
}

/// Whether a schema has a column of this name.
pub open spec fn schema_has_column(s: TskvTableSchemaV, name: Seq<char>) -> bool {
    exists|i: int| 0 <= i < s.columns.len() && (#[trigger] s.columns[i]).name == name
}

/// Projects a table schema onto the requested column names: the time column
/// maps to a synthetic time column with id zero, any other name must exist
/// in the schema; a missing one fails the whole projection with the name
/// that was not found.
pub fn project_schema(table_schema: &TskvTableSchema, proj_names: &Vec<String>) -> (r: Result<
    Vec<TableColumn>,
    EngineError,
>)
    ensures
        match r {
            Ok(cols) => columns_view(cols@).len() == proj_names@.len() && forall|i: int|
                0 <= i < proj_names@.len() ==> ((#[trigger] proj_names@[i])@ == spec_time_field()
                    && columns_view(cols@)[i] == (TableColumnV {
                    id: 0,
                    name: spec_time_field(),
                    column_type: ColumnType::Time,
                })) || (proj_names@[i]@ != spec_time_field() && schema_has_column(
                    table_schema@,
                    proj_names@[i]@,
                ) && columns_view(cols@)[i].name == proj_names@[i]@),
            Err(_) => exists|i: int|
                0 <= i < proj_names@.len() && (#[trigger] proj_names@[i])@ != spec_time_field()
                    && !schema_has_column(table_schema@, proj_names@[i]@),
        },
{
    let mut out: Vec<TableColumn> = Vec::new();
    let time_name: String = time_field_name();
    let mut i: usize = 0;
    while i < proj_names.len()
        invariant
            i <= proj_names@.len(),
            time_name@ == spec_time_field(),
            columns_view(out@).len() == i,
            forall|j: int|
                0 <= j < i ==> ((#[trigger] proj_names@[j])@ == spec_time_field()
                    && columns_view(out@)[j] == (TableColumnV {
                    id: 0,
                    name: spec_time_field(),
                    column_type: ColumnType::Time,
                })) || (proj_names@[j]@ != spec_time_field() && schema_has_column(
                    table_schema@,
                    proj_names@[j]@,
                ) && columns_view(out@)[j].name == proj_names@[j]@),
        decreases proj_names@.len() - i,
    {
        let name = &proj_names[i];
        let ghost ob = columns_view(out@);
        if *name == time_name {
            let col = TableColumn::new(0, time_field_name(), ColumnType::Time);
            let ghost cv = col@;
            out.push(col);
            proof {
                assert(columns_view(out@) =~= ob.push(cv));
            }
        } else {
            match table_schema.column(name.as_str()) {
                Some(c) => {
                    let cc = c.clone();
                    let ghost cv = cc@;
                    out.push(cc);
                    proof {
                        assert(columns_view(out@) =~= ob.push(cv));
                    }
                },
                None => {
                    return Err(EngineError::SchemaMissing { name: name.clone() });
                },
            }
        }
        i = i + 1;
    }
    Ok(out)
}

/// The time column's name, as a value.
fn time_field_name() -> (r: String)
    ensures
        r@ == spec_time_field(),
{
    let r = "time".to_owned();
    proof {
        reveal_strlit("time");
        assert(r@ =~= spec_time_field());
    }
    r
}

/// How one label is matched in a remote-read request.
#[derive(Debug, Clone, Copy, PartialEq, Eq, Structural)]
pub enum MatcherKind {
    MatchEqual,
    MatchNotEqual,
    MatchRegexp,
    MatchNotRegexp,
}

/// One label matcher of a remote-read request.
#[derive(Debug)]
pub struct LabelMatcher {
    pub kind: MatcherKind,
    pub name: String,
    pub value: String,
}

/// The mathematical value of a `LabelMatcher`.
pub ghost struct LabelMatcherV {
    pub kind: MatcherKind,
    pub name: Seq<char>,
    pub value: Seq<char>,
}

impl View for LabelMatcher {
    type V = LabelMatcherV;

    open spec fn view(&self) -> LabelMatcherV {
        LabelMatcherV { kind: self.kind, name: self.name@, value: self.value@ }
    }
}

/// The values of a matcher vector.
pub open spec fn matchers_view(ms: Seq<LabelMatcher>) -> Seq<LabelMatcherV> {
    ms.map_values(|m: LabelMatcher| m@)
}

/// Which tables a remote-read query addresses: one by name, or those whose
/// names a pattern matches; none when no metric-name matcher was given.
#[derive(Debug)]
pub enum TableSelector {
    Unselected,
    ByName(String),
    ByPattern(String),
}

/// One rendered condition of the generated query.
#[derive(Debug)]
pub struct FilterExpr {
    pub kind: MatcherKind,
    pub name: String,
    pub value: String,
}

/// The plan of one remote-read query: the table selector, the label
/// conditions in request order, and the time window in nanoseconds.
#[derive(Debug)]
pub struct PromQueryPlan {
    pub selector: TableSelector,
    pub filters: Vec<FilterExpr>,
    pub start_ns: i64,
    pub end_ns: i64,
}

/// The metric-name label.
pub open spec fn spec_metric_name_label() -> Seq<char> {
    seq!['_', '_', 'n', 'a', 'm', 'e', '_', '_']
}

fn metric_name_label() -> (r: String)
    ensures
        r@ == spec_metric_name_label(),
{
    let r = "__name__".to_owned();
    proof {
        reveal_strlit("__name__");
        assert(r@ =~= spec_metric_name_label());
    }
    r
}

/// The label conditions of a matcher list: every matcher that does not
/// address the metric name, in order.
pub open spec fn spec_plan_filters(ms: Seq<LabelMatcherV>) -> Seq<LabelMatcherV> {
    ms.filter(|m: LabelMatcherV| m.name != spec_metric_name_label())
}

/// The selector the metric-name matchers leave behind: the last one wins,
/// as each overwrites the tables chosen so far.
pub open spec fn spec_plan_selector(ms: Seq<LabelMatcherV>) -> Option<LabelMatcherV>
    decreases ms.len(),
{
    if ms.len() == 0 {
        None
    } else if ms.last().name == spec_metric_name_label() {
        Some(ms.last())
    } else {
        spec_plan_selector(ms.drop_last())
    }
}

/// Whether a matcher list can be planned: every metric-name matcher is an
/// equality or a pattern.
pub open spec fn spec_plan_ok(ms: Seq<LabelMatcherV>) -> bool {
    forall|i: int|
        0 <= i < ms.len() && (#[trigger] ms[i]).name == spec_metric_name_label() ==> (ms[i].kind
            == MatcherKind::MatchEqual || ms[i].kind == MatcherKind::MatchRegexp)
}

/// Plans a remote-read request: metric-name matchers choose the tables (an
/// equality names one, a pattern selects by name; anything else is
/// rejected), every other matcher becomes a filter, and the millisecond
/// window widens to nanoseconds.
pub fn plan_remote_read(matchers: &Vec<LabelMatcher>, start_ms: i64, end_ms: i64) -> (r: Result<
    PromQueryPlan,
    EngineError,
>)
    requires
        -9_000_000_000_000 <= start_ms <= 9_000_000_000_000,
        -9_000_000_000_000 <= end_ms <= 9_000_000_000_000,
    ensures
        r is Ok <==> spec_plan_ok(matchers_view(matchers@)),
        match r {
            Ok(plan) => {
                &&& plan.start_ns == start_ms * 1_000_000
                &&& plan.end_ns == end_ms * 1_000_000
                &&& matchers_view(plan.filters@.map_values(
                    |f: FilterExpr| LabelMatcher { kind: f.kind, name: f.name, value: f.value },
                )) == spec_plan_filters(matchers_view(matchers@))
                &&& (match spec_plan_selector(matchers_view(matchers@)) {
                    None => plan.selector is Unselected,
                    Some(m) => (m.kind == MatcherKind::MatchEqual ==> (plan.selector matches
                    TableSelector::ByName(n) && n@ == m.value)) && (m.kind
                        == MatcherKind::MatchRegexp ==> (plan.selector matches
                    TableSelector::ByPattern(p) && p@ == m.value)),
                })
            },
            Err(_) => true,
        },
{
    let ghost ms = matchers_view(matchers@);
    let metric = metric_name_label();
    let mut selector = TableSelector::Unselected;
    let mut filters: Vec<FilterExpr> = Vec::new();
    let mut i: usize = 0;
    while i < matchers.len()
        invariant
            i <= ms.len(),
            ms == matchers_view(matchers@),
            metric@ == spec_metric_name_label(),
            spec_plan_ok(ms.take(i as int)),
            matchers_view(filters@.map_values(
                |f: FilterExpr| LabelMatcher { kind: f.kind, name: f.name, value: f.value },
            )) =~= spec_plan_filters(ms.take(i as int)),
            (match spec_plan_selector(ms.take(i as int)) {
                None => selector is Unselected,
                Some(m) => (m.kind == MatcherKind::MatchEqual ==> (selector matches
                TableSelector::ByName(n) && n@ == m.value)) && (m.kind == MatcherKind::MatchRegexp
                    ==> (selector matches TableSelector::ByPattern(p) && p@ == m.value)),
            }),
        decreases ms.len() - i,
    {
        proof {
            assert(matchers_view(matchers@)[i as int] == matchers@[i as int]@);
            assert(ms.take(i as int + 1).drop_last() =~= ms.take(i as int));
            assert(ms.take(i as int + 1).last() == ms[i as int]);
            crate::version::lemma_filter_take_step(
                ms,
                |m: LabelMatcherV| m.name != spec_metric_name_label(),
                i as int,
            );
        }
        let m = &matchers[i];
        if m.name == metric {
            match m.kind {
                MatcherKind::MatchEqual => {
                    selector = TableSelector::ByName(m.value.clone());
                },
                MatcherKind::MatchRegexp => {
                    selector = TableSelector::ByPattern(m.value.clone());
                },
                _ => {
                    return Err(EngineError::SchemaMissing { name: m.name.clone() });
                },
            }
        } else {
            let ghost fb = filters@;
            let f = FilterExpr { kind: m.kind, name: m.name.clone(), value: m.value.clone() };
            filters.push(f);
            proof {
                assert(matchers_view(filters@.map_values(
                    |f0: FilterExpr| LabelMatcher { kind: f0.kind, name: f0.name, value: f0.value },
                )) =~= spec_plan_filters(ms.take(i as int)).push(ms[i as int]));
            }
        }
        i = i + 1;
    }
    proof {
        assert(ms.take(ms.len() as int) =~= ms);
    }
    let start_ns = start_ms * 1_000_000;
    let end_ns = end_ms * 1_000_000;
    Ok(PromQueryPlan { selector, filters, start_ns, end_ns })
}

/// Whether a pattern compiles as a regular expression: a pure function of
/// the pattern text.
pub uninterp spec fn regex_valid(pattern: Seq<char>) -> bool;

/// Whether a regular expression matches a text: a pure function of the
/// pattern and the text.
pub uninterp spec fn regex_match(pattern: Seq<char>, text: Seq<char>) -> bool;

/// Relies on regex's `Regex::new`: compiling succeeds exactly for the
/// patterns the regex language accepts, a property of the pattern text.
#[verifier::external_body]
fn regex_compile_check(pattern: &str) -> (r: bool)
    ensures
        r == regex_valid(pattern@),
{
    regex::Regex::new(pattern).is_ok()
}

/// Relies on regex's `Regex::new` and `Regex::is_match` in one round, as
/// the compiled value is opaque here and only the pair of texts determines
/// the outcome: compiling fails exactly for invalid patterns, and a
/// compiled pattern matches a text by the regex language's rules.
#[verifier::external_body]
fn regex_is_match(pattern: &str, text: &str) -> (r: Option<bool>)
    ensures
        r is Some <==> regex_valid(pattern@),
        match r {
            Some(b) => b == regex_match(pattern@, text@),
            None => !regex_valid(pattern@),
        },
{
    match regex::Regex::new(pattern) {
        Ok(re) => Some(re.is_match(text)),
        Err(_) => None,
    }
}

/// Selects the table names a pattern matches, in order; an invalid pattern
/// rejects the request.
pub fn select_tables(pattern: &str, names: &Vec<String>) -> (r: Result<Vec<String>, EngineError>)
    ensures
        r is Ok <==> regex_valid(pattern@),
        match r {
            Ok(sel) => strings_view(sel@) == strings_view(names@).filter(
                |n: Seq<char>| regex_match(pattern@, n),
            ),
            Err(_) => !regex_valid(pattern@),
        },
{
    let ghost nv = strings_view(names@);
    if !regex_compile_check(pattern) {
        return Err(EngineError::SchemaMissing { name: pattern.to_owned() });
    }
    let mut out: Vec<String> = Vec::new();
    let mut i: usize = 0;
    while i < names.len()
        invariant
            i <= nv.len(),
            nv == strings_view(names@),
            regex_valid(pattern@),
            strings_view(out@) =~= nv.take(i as int).filter(
                |n: Seq<char>| regex_match(pattern@, n),
            ),
        decreases nv.len() - i,
    {
        proof {
            assert(strings_view(names@)[i as int] == names@[i as int]@);
            crate::version::lemma_filter_take_step(
                nv,
                |n: Seq<char>| regex_match(pattern@, n),
                i as int,
            );
        }
        match regex_is_match(pattern, names[i].as_str()) {
            Some(true) => {
                let ghost ob = strings_view(out@);
                let name = names[i].clone();
                let ghost nvv = name@;
                out.push(name);
                proof {
                    assert(strings_view(out@) =~= ob.push(nvv));
                }
            },
            Some(false) => {},
            None => {
                proof {
                    assert(false);
                }
                return Err(EngineError::SchemaMissing { name: names[i].clone() });
            },
        }
        i = i + 1;
    }
    proof {
        assert(nv.take(nv.len() as int) =~= nv);
    }
    Ok(out)
}

/// The texts of a string vector.
pub open spec fn strings_view(names: Seq<String>) -> Seq<Seq<char>> {
    names.map_values(|n: String| n@)
}

/// One requested change to a table.
#[derive(Debug)]
pub enum AlterTableAction {
    AddColumn { table_column: TableColumn },
    DropColumn { column_name: String },
    AlterColumn { column_name: String, new_column: TableColumn },
}

/// Applies one alter action to a schema and bumps its schema id: an added
/// column goes to the end, a dropped name leaves, an altered name is
/// replaced in place.
pub fn plan_alter_table(schema: &TskvTableSchema, action: &AlterTableAction) -> (r:
    TskvTableSchema)
    requires
        schema@.schema_id < u32::MAX,
    ensures
        r@.tenant == schema@.tenant,
        r@.db == schema@.db,
        r@.name == schema@.name,
        r@.schema_id == schema@.schema_id + 1,
        match action {
            AlterTableAction::AddColumn { table_column } => r@.columns == schema@.columns.push(
                table_column@,
            ),
            AlterTableAction::DropColumn { column_name } => r@.columns == schema@.columns.filter(
                |c: TableColumnV| c.name != column_name@,
            ),
            AlterTableAction::AlterColumn { column_name, new_column } => r@.columns
                == schema@.columns.map_values(
                |c: TableColumnV|
                    if c.name == column_name@ {
                        new_column@
                    } else {
                        c
                    },
            ),
        },
{
    let ghost cols = columns_view(schema.columns@);
    let mut new_columns: Vec<TableColumn> = Vec::new();
    match action {
        AlterTableAction::AddColumn { table_column } => {
            let mut i: usize = 0;
            while i < schema.columns.len()
                invariant
                    i <= cols.len(),
                    cols == columns_view(schema.columns@),
                    columns_view(new_columns@) =~= cols.take(i as int),
                decreases cols.len() - i,
            {
                proof {
                    assert(columns_view(schema.columns@)[i as int] == schema.columns@[i as int]@);
                }
                let ghost kb = columns_view(new_columns@);
                let c = schema.columns[i].clone();
                let ghost cv = c@;
                new_columns.push(c);
                proof {
                    assert(columns_view(new_columns@) =~= kb.push(cv));
                }
                i = i + 1;
            }
            proof {
                assert(cols.take(cols.len() as int) =~= cols);
            }
            let ghost kb = columns_view(new_columns@);
            let c = table_column.clone();
            let ghost cv = c@;
            new_columns.push(c);
            proof {
                assert(columns_view(new_columns@) =~= kb.push(cv));
            }
        },
        AlterTableAction::DropColumn { column_name } => {
            let ghost pk = |c: TableColumnV| c.name != column_name@;
            let mut i: usize = 0;
            while i < schema.columns.len()
                invariant
                    i <= cols.len(),
                    cols == columns_view(schema.columns@),
                    pk == (|c: TableColumnV| c.name != column_name@),
                    columns_view(new_columns@) =~= cols.take(i as int).filter(pk),
                decreases cols.len() - i,
            {
                proof {
                    assert(columns_view(schema.columns@)[i as int] == schema.columns@[i as int]@);
                    crate::version::lemma_filter_take_step(cols, pk, i as int);
                }
                if !(schema.columns[i].name == *column_name) {
                    let ghost kb = columns_view(new_columns@);
                    let c = schema.columns[i].clone();
                    let ghost cv = c@;
                    new_columns.push(c);
                    proof {
                        assert(columns_view(new_columns@) =~= kb.push(cv));
                    }
                }
                i = i + 1;
            }
            proof {
                assert(cols.take(cols.len() as int) =~= cols);
            }
        },
        AlterTableAction::AlterColumn { column_name, new_column } => {
            let mut i: usize = 0;
            while i < schema.columns.len()
                invariant
                    i <= cols.len(),
                    cols == columns_view(schema.columns@),
                    columns_view(new_columns@).len() == i,
                    forall|j: int|
                        0 <= j < i ==> (#[trigger] columns_view(new_columns@)[j]) == (if cols[j].name
                            == column_name@ {
                            new_column@
                        } else {
                            cols[j]
                        }),
                decreases cols.len() - i,
            {
                proof {
                    assert(columns_view(schema.columns@)[i as int] == schema.columns@[i as int]@);
                }
                let ghost kb = columns_view(new_columns@);
                let c = if schema.columns[i].name == *column_name {
                    new_column.clone()
                } else {
                    schema.columns[i].clone()
                };
                let ghost cv = c@;
                new_columns.push(c);
                proof {
                    assert(columns_view(new_columns@) =~= kb.push(cv));
                }
                i = i + 1;
            }
            proof {
                assert(columns_view(new_columns@) =~= cols.map_values(
                    |c: TableColumnV|
                        if c.name == column_name@ {
                            new_column@
                        } else {
                            c
                        },
                ));
            }
        },
    }
    TskvTableSchema {
        tenant: schema.tenant.clone(),
        db: schema.db.clone(),
        name: schema.name.clone(),
        schema_id: schema.schema_id + 1,
        columns: new_columns,
    }
}

/// What creating a role comes to, given whether it already exists and
/// whether the request tolerates that: keep the existing role, reject the
/// request, or create the role.
#[derive(Debug, Clone, Copy, PartialEq, Eq, Structural)]
pub enum RoleDecision {
    KeepExisting,
    Reject,
    Create,
}

/// The create-role decision: an existing role is kept when tolerated and
/// rejected otherwise; an absent role is created.
pub fn plan_create_role(role_exists: bool, if_not_exists: bool) -> (r: RoleDecision)
    ensures
        role_exists && if_not_exists ==> r == RoleDecision::KeepExisting,
        role_exists && !if_not_exists ==> r == RoleDecision::Reject,
        !role_exists ==> r == RoleDecision::Create,
{
    if role_exists {
        if if_not_exists {
            RoleDecision::KeepExisting
        } else {
            RoleDecision::Reject
        }
    } else {
        RoleDecision::Create
    }
}

} // verus!
