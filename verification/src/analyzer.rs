//! The whole analysis of one stored procedure.
use vstd::prelude::*;
use crate::model::{
    deps_view, opt_view, params_view, risks_view, severity_rank, Config, Dependency, Operation,
    ProcedureTrace, RiskFinding, RuleConfig, Severity, TraceMetrics,
};
use crate::parser::{
    dependencies_spec, extract_dependencies, extract_parameters, extract_procedure_name,
    extract_temp_tables, parameters_spec, procedure_name_spec, summaries_spec, summaries_view,
    summarize_statements, temp_tables_found, DepV,
};
use crate::rules::{detect_risks_with_config, risks_spec, FindingV};
use crate::text::{sorted_set, sviews};

verus! {

/// The error type of the analysis, which never fails: no value of this type
/// is ever made.
#[derive(Debug)]
pub struct AnalyzeError {
    never: (),
}

/// Number of dependencies with the given operation.
pub open spec fn count_op(ds: Seq<DepV>, op: Operation) -> nat
    decreases ds.len(),
{
    if ds.len() == 0 {
        0
    } else {
        count_op(ds.drop_last(), op) + (if ds.last().1 == op {
            1nat
        } else {
            0nat
        })
    }
}

pub open spec fn max_severity(a: Severity, b: Severity) -> Severity {
    if severity_rank(b) > severity_rank(a) {
        b
    } else {
        a
    }
}

/// The highest severity among the findings; `Low` when there is none.
pub open spec fn highest(rs: Seq<FindingV>) -> Severity
    decreases rs.len(),
{
    if rs.len() == 0 {
        Severity::Low
    } else {
        max_severity(highest(rs.drop_last()), rs.last().1)
    }
}

/// Metrics of a trace: statements, reads, writes, highest severity.
pub open spec fn metrics_of(t: ProcedureTrace) -> TraceMetrics {
    TraceMetrics {
        statement_count: t.statements@.len() as usize,
        read_count: count_op(deps_view(t.dependencies@), Operation::Read) as usize,
        write_count: count_op(deps_view(t.dependencies@), Operation::Write) as usize,
        risk_level: highest(risks_view(t.risks@)),
    }
}

/// What the analysis of `sql` under the rule settings `m` consists of.
pub open spec fn is_trace_of(sql: Seq<char>, m: Map<Seq<char>, RuleConfig>, t: ProcedureTrace) -> bool {
    &&& opt_view(t.name) == procedure_name_spec(sql)
    &&& params_view(t.parameters@) == parameters_spec(sql)
    &&& deps_view(t.dependencies@) == dependencies_spec(sql)
    &&& sviews(t.temp_tables@) == sorted_set(temp_tables_found(sql))
    &&& summaries_view(t.statements@) == summaries_spec(sql)
    &&& risks_view(t.risks@) == risks_spec(sql, t.temp_tables@.len(), m)
    &&& t.metrics == metrics_of(t)
}

pub(crate) fn count_operation(ds: &Vec<Dependency>, op: Operation) -> (r: usize)
    ensures
        r == count_op(deps_view(ds@), op),
{
    let ghost dv = deps_view(ds@);
    let mut n: usize = 0;
    let mut i: usize = 0;
    while i < ds.len()
        invariant
            i <= ds.len(),
            dv == deps_view(ds@),
            n == count_op(dv.take(i as int), op),
            n <= i,
        decreases ds.len() - i,
    {
        assert(dv.take(i + 1).drop_last() =~= dv.take(i as int));
        assert(dv.take(i + 1).last().1 == ds@[i as int].operation);
        if ds[i].operation == op {
            n += 1;
        }
        i += 1;
    }
    assert(dv.take(ds.len() as int) =~= dv);
    n
}

fn highest_severity(risks: &Vec<RiskFinding>) -> (r: Severity)
    ensures
        r == highest(risks_view(risks@)),
{
    let ghost rv = risks_view(risks@);
    let mut best = Severity::Low;
    let mut i: usize = 0;
    while i < risks.len()
        invariant
            i <= risks.len(),
            rv == risks_view(risks@),
            best == highest(rv.take(i as int)),
        decreases risks.len() - i,
    {
        assert(rv.take(i + 1).drop_last() =~= rv.take(i as int));
        assert(rv.take(i + 1).last().1 == risks@[i as int].severity);
        let s = risks[i].severity;
        if s.rank() > best.rank() {
            best = s;
        }
        i += 1;
    }
    assert(rv.take(risks.len() as int) =~= rv);
    best
}

fn compute_metrics(trace: &ProcedureTrace) -> (r: TraceMetrics)
    ensures
        r == metrics_of(*trace),
{
    TraceMetrics {
        statement_count: trace.statements.len(),
        read_count: count_operation(&trace.dependencies, Operation::Read),
        write_count: count_operation(&trace.dependencies, Operation::Write),
        risk_level: highest_severity(&trace.risks),
    }
}

/// Analyzes a procedure with the given rule settings.
pub fn analyze_sql_with_config(sql: &str, config: &Config) -> (r: Result<ProcedureTrace, AnalyzeError>)
    ensures
        r matches Ok(t) && is_trace_of(sql@, config.rules.view_map(), t),
{
    let mut trace = ProcedureTrace::new();
    trace.name = extract_procedure_name(sql);
    trace.parameters = extract_parameters(sql);
    trace.dependencies = extract_dependencies(sql);
    trace.temp_tables = extract_temp_tables(sql);
    trace.statements = summarize_statements(sql);
    trace.risks = detect_risks_with_config(sql, &trace, config);
    trace.metrics = compute_metrics(&trace);
    Ok(trace)
}

/// Analyzes a procedure with every rule as it is by default.
pub fn analyze_sql(sql: &str) -> (r: Result<ProcedureTrace, AnalyzeError>)
    ensures
        r matches Ok(t) && is_trace_of(sql@, Map::<Seq<char>, RuleConfig>::empty(), t),
{
    let config = Config::new();
    analyze_sql_with_config(sql, &config)
}

} // verus!
