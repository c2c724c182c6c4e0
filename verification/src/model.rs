//! The analysis result and its parts.
use vstd::prelude::*;

verus! {

/// Everything extracted from one stored procedure.
#[derive(Debug, Clone)]
pub struct ProcedureTrace {
    pub name: Option<String>,
    pub parameters: Vec<Parameter>,
    pub dependencies: Vec<Dependency>,
    pub temp_tables: Vec<String>,
    pub risks: Vec<RiskFinding>,
    pub statements: Vec<StatementSummary>,
    pub metrics: TraceMetrics,
}

#[derive(Debug, Clone)]
pub struct TraceMetrics {
    pub statement_count: usize,
    pub read_count: usize,
    pub write_count: usize,
    pub risk_level: Severity,
}

#[derive(Debug, Clone)]
pub struct Parameter {
    pub name: String,
    pub data_type: String,
    pub default_value: Option<String>,
}

#[derive(Debug, Clone, PartialEq, Eq, Hash)]
pub struct Dependency {
    pub object: String,
    pub operation: Operation,
    pub source: String,
}

#[derive(Debug, Clone, Copy, PartialEq, Eq, Hash, Structural)]
pub enum Operation {
    Read,
    Write,
    Execute,
    Unknown,
}

#[derive(Debug, Clone)]
pub struct RiskFinding {
    pub rule_id: String,
    pub severity: Severity,
    pub message: String,
    pub suggestion: String,
}

#[derive(Debug, Clone, Copy, PartialEq, Eq, Hash, PartialOrd, Ord, Structural)]
pub enum Severity {
    Low,
    Medium,
    High,
}

#[derive(Debug, Clone)]
pub struct ScanIndexEntry {
    pub source_file: String,
    pub report_file: String,
    pub procedure: String,
    pub read_count: usize,
    pub write_count: usize,
    pub risk_level: Severity,
    pub risk_rules: Vec<String>,
}

#[derive(Debug, Clone)]
pub struct StatementSummary {
    pub index: usize,
    pub kind: StatementKind,
    pub target: Option<String>,
    pub sources: Vec<String>,
}

#[derive(Debug, Clone, Copy, PartialEq, Eq, Structural)]
pub enum StatementKind {
    Select,
    Insert,
    Update,
    Delete,
    Merge,
    Execute,
    Transaction,
    Unknown,
}

/// How a rule is configured: switched on or off, or given another severity.
#[derive(Debug, Clone, Copy, PartialEq, Eq, Structural)]
pub enum RuleConfig {
    Bool(bool),
    Severity(Severity),
}

/// Rule settings keyed by rule id; each id occurs at most once.
#[derive(Debug)]
pub struct RuleMap {
    entries: Vec<(String, RuleConfig)>,
}

#[derive(Debug, Clone)]
pub struct Config {
    pub rules: RuleMap,
}

// ---------------------------------------------------------------------------
// Models
// ---------------------------------------------------------------------------

/// A dependency as plain values: object, operation, source clause.
pub open spec fn dep_view(d: Dependency) -> (Seq<char>, Operation, Seq<char>) {
    (d.object@, d.operation, d.source@)
}

pub open spec fn deps_view(ds: Seq<Dependency>) -> Seq<(Seq<char>, Operation, Seq<char>)> {
    ds.map_values(|d: Dependency| dep_view(d))
}

/// A parameter as plain values: name, type, default.
pub open spec fn param_view(p: Parameter) -> (Seq<char>, Seq<char>, Option<Seq<char>>) {
    (
        p.name@,
        p.data_type@,
        match p.default_value {
            Some(d) => Some(d@),
            None => None,
        },
    )
}

pub open spec fn params_view(ps: Seq<Parameter>) -> Seq<(Seq<char>, Seq<char>, Option<Seq<char>>)> {
    ps.map_values(|p: Parameter| param_view(p))
}

/// A finding as plain values: rule id, severity, message, suggestion.
pub open spec fn risk_view(r: RiskFinding) -> (Seq<char>, Severity, Seq<char>, Seq<char>) {
    (r.rule_id@, r.severity, r.message@, r.suggestion@)
}

pub open spec fn risks_view(rs: Seq<RiskFinding>) -> Seq<(Seq<char>, Severity, Seq<char>, Seq<char>)> {
    rs.map_values(|r: RiskFinding| risk_view(r))
}

pub open spec fn opt_view(o: Option<String>) -> Option<Seq<char>> {
    match o {
        Some(s) => Some(s@),
        None => None,
    }
}

pub open spec fn severity_rank(s: Severity) -> u8 {
    match s {
        Severity::High => 3,
        Severity::Medium => 2,
        Severity::Low => 1,
    }
}

impl Severity {
    /// High = 3, Medium = 2, Low = 1.
    pub fn rank(&self) -> (r: u8)
        ensures
            r == severity_rank(*self),
    {
        match self {
            Severity::High => 3,
            Severity::Medium => 2,
            Severity::Low => 1,
        }
    }
}

impl RuleMap {
    /// The settings as a map from rule id.
    pub closed spec fn view_map(&self) -> Map<Seq<char>, RuleConfig> {
        Map::new(
            |k: Seq<char>| exists|i: int| 0 <= i < self.entries@.len() && self.entries@[i].0@ == k,
            |k: Seq<char>|
                self.entries@[choose|i: int|
                    0 <= i < self.entries@.len() && self.entries@[i].0@ == k].1,
        )
    }

    #[verifier::type_invariant]
    closed spec fn wf(self) -> bool {
        forall|i: int, j: int|
            0 <= i < j < self.entries@.len() ==> self.entries@[i].0@ != self.entries@[j].0@
    }

    pub fn new() -> (r: RuleMap)
        ensures
            r.view_map() == Map::<Seq<char>, RuleConfig>::empty(),
    {
        let r = RuleMap { entries: Vec::new() };
        assert(r.view_map() =~= Map::<Seq<char>, RuleConfig>::empty());
        r
    }

    fn find(&self, key: &String) -> (r: Option<usize>)
        ensures
            match r {
                Some(i) => i < self.entries@.len() && self.entries@[i as int].0@ == key@,
                None => forall|i: int|
                    0 <= i < self.entries@.len() ==> self.entries@[i].0@ != key@,
            },
    {
        let mut i: usize = 0;
        while i < self.entries.len()
            invariant
                i <= self.entries@.len(),
                forall|k: int| 0 <= k < i ==> self.entries@[k].0@ != key@,
            decreases self.entries.len() - i,
        {
            if self.entries[i].0 == *key {
                return Some(i);
            }
            i += 1;
        }
        None
    }

    /// Sets the configuration of a rule, replacing an earlier one.
    pub fn insert(&mut self, key: String, value: RuleConfig)
        ensures
            final(self).view_map() == old(self).view_map().insert(key@, value),
    {
        proof {
            use_type_invariant(&*self);
        }
        let ghost old_map = self.view_map();
        let ghost k = key@;
        let found = self.find(&key);
        let mut entries: Vec<(String, RuleConfig)> = Vec::new();
        std::mem::swap(&mut entries, &mut self.entries);
        match found {
            Some(i) => {
                entries.set(i, (key, value));
                self.entries = entries;
                assert(self.view_map() =~= old_map.insert(k, value)) by {
                    assert forall|kk: Seq<char>| #[trigger] self.view_map().contains_key(kk)
                        == old_map.insert(k, value).contains_key(kk) by {
                        if old_map.insert(k, value).contains_key(kk) && kk != k {
                            let j = choose|j: int|
                                0 <= j < old(self).entries@.len() && old(self).entries@[j].0@ == kk;
                            assert(self.entries@[j].0@ == kk);
                        }
                        if kk == k {
                            assert(self.entries@[i as int].0@ == kk);
                        }
                        if self.view_map().contains_key(kk) && kk != k {
                            let j = choose|j: int|
                                0 <= j < self.entries@.len() && self.entries@[j].0@ == kk;
                            assert(old(self).entries@[j].0@ == kk);
                        }
                    }
                    assert forall|kk: Seq<char>| #[trigger]
                        self.view_map().contains_key(kk) implies self.view_map()[kk]
                        == old_map.insert(k, value)[kk] by {
                        let j = choose|j: int|
                            0 <= j < self.entries@.len() && self.entries@[j].0@ == kk;
                        if kk == k {
                            assert(j == i);
                        } else {
                            let j0 = choose|j0: int|
                                0 <= j0 < old(self).entries@.len() && old(self).entries@[j0].0@
                                    == kk;
                            assert(j0 == j);
                        }
                    }
                }
            },
            None => {
                entries.push((key, value));
                self.entries = entries;
                let ghost n: int = self.entries@.len() - 1;
                assert(self.view_map() =~= old_map.insert(k, value)) by {
                    assert forall|kk: Seq<char>| #[trigger] self.view_map().contains_key(kk)
                        == old_map.insert(k, value).contains_key(kk) by {
                        if old_map.insert(k, value).contains_key(kk) && kk != k {
                            let j = choose|j: int|
                                0 <= j < old(self).entries@.len() && old(self).entries@[j].0@ == kk;
                            assert(self.entries@[j].0@ == kk);
                        }
                        if kk == k {
                            assert(self.entries@[n].0@ == kk);
                        }
                    }
                    assert forall|kk: Seq<char>| #[trigger]
                        self.view_map().contains_key(kk) implies self.view_map()[kk]
                        == old_map.insert(k, value)[kk] by {
                        let j = choose|j: int|
                            0 <= j < self.entries@.len() && self.entries@[j].0@ == kk;
                        if kk == k {
                            assert(j == n);
                        } else {
                            let j0 = choose|j0: int|
                                0 <= j0 < old(self).entries@.len() && old(self).entries@[j0].0@
                                    == kk;
                            assert(j0 == j);
                        }
                    }
                }
            },
        }
    }

    /// The configuration of a rule, if one was set.
    pub fn get(&self, key: &String) -> (r: Option<RuleConfig>)
        ensures
            r == (if self.view_map().contains_key(key@) {
                Some(self.view_map()[key@])
            } else {
                None
            }),
    {
        proof {
            use_type_invariant(self);
        }
        match self.find(key) {
            Some(i) => {
                let ghost j = choose|j: int|
                    0 <= j < self.entries@.len() && self.entries@[j].0@ == key@;
                assert(j == i as int);
                Some(self.entries[i].1)
            },
            None => None,
        }
    }
}

impl Clone for RuleMap {
    fn clone(&self) -> (r: Self)
        ensures
            r.view_map() == self.view_map(),
    {
        proof {
            use_type_invariant(self);
        }
        let mut entries: Vec<(String, RuleConfig)> = Vec::new();
        let mut i: usize = 0;
        while i < self.entries.len()
            invariant
                i <= self.entries@.len(),
                entries@.len() == i,
                forall|k: int| 0 <= k < i ==> #[trigger] entries@[k].0@ == self.entries@[k].0@ && entries@[k].1 == self.entries@[k].1,
            decreases self.entries.len() - i,
        {
            entries.push((self.entries[i].0.clone(), self.entries[i].1));
            i += 1;
        }
        let r = RuleMap { entries };
        assert(r.view_map() =~= self.view_map()) by {
            assert forall|kk: Seq<char>| #[trigger] r.view_map().contains_key(kk) == self.view_map().contains_key(kk) by {
                if r.view_map().contains_key(kk) {
                    let j = choose|j: int| 0 <= j < r.entries@.len() && r.entries@[j].0@ == kk;
                    assert(self.entries@[j].0@ == kk);
                }
                if self.view_map().contains_key(kk) {
                    let j = choose|j: int| 0 <= j < self.entries@.len() && self.entries@[j].0@ == kk;
                    assert(r.entries@[j].0@ == kk);
                }
            }
            assert forall|kk: Seq<char>| #[trigger] r.view_map().contains_key(kk) implies r.view_map()[kk] == self.view_map()[kk] by {
                let j = choose|j: int| 0 <= j < r.entries@.len() && r.entries@[j].0@ == kk;
                let j0 = choose|j0: int| 0 <= j0 < self.entries@.len() && self.entries@[j0].0@ == kk;
                assert(j == j0);
            }
        }
        r
    }
}

impl Config {
    /// A configuration that leaves every rule as it is.
    pub fn new() -> (r: Config)
        ensures
            r.rules.view_map() == Map::<Seq<char>, RuleConfig>::empty(),
    {
        Config { rules: RuleMap::new() }
    }
}

impl ProcedureTrace {
    /// A trace with nothing found.
    pub fn new() -> (r: ProcedureTrace)
        ensures
            r.name is None,
            r.parameters@.len() == 0,
            r.dependencies@.len() == 0,
            r.temp_tables@.len() == 0,
            r.risks@.len() == 0,
            r.statements@.len() == 0,
            r.metrics == TraceMetrics::empty_spec(),
    {
        ProcedureTrace {
            name: None,
            parameters: Vec::new(),
            dependencies: Vec::new(),
            temp_tables: Vec::new(),
            risks: Vec::new(),
            statements: Vec::new(),
            metrics: TraceMetrics::empty(),
        }
    }
}

impl Default for ProcedureTrace {
    fn default() -> (r: ProcedureTrace)
        ensures
            r.name is None,
            r.parameters@.len() == 0,
            r.dependencies@.len() == 0,
            r.temp_tables@.len() == 0,
            r.risks@.len() == 0,
            r.statements@.len() == 0,
            r.metrics == TraceMetrics::empty_spec(),
    {
        ProcedureTrace::new()
    }
}

impl Default for TraceMetrics {
    fn default() -> (r: TraceMetrics)
        ensures
            r == TraceMetrics::empty_spec(),
    {
        TraceMetrics::empty()
    }
}

impl Default for Config {
    fn default() -> (r: Config)
        ensures
            r.rules.view_map() == Map::<Seq<char>, RuleConfig>::empty(),
    {
        Config::new()
    }
}

pub open spec fn operation_label(op: Operation) -> Seq<char> {
    match op {
        Operation::Read => "READ"@,
        Operation::Write => "WRITE"@,
        Operation::Execute => "EXECUTE"@,
        Operation::Unknown => "UNKNOWN"@,
    }
}

pub open spec fn severity_label(s: Severity) -> Seq<char> {
    match s {
        Severity::Low => "Low"@,
        Severity::Medium => "Medium"@,
        Severity::High => "High"@,
    }
}

pub open spec fn statement_kind_label(k: StatementKind) -> Seq<char> {
    match k {
        StatementKind::Select => "Select"@,
        StatementKind::Insert => "Insert"@,
        StatementKind::Update => "Update"@,
        StatementKind::Delete => "Delete"@,
        StatementKind::Merge => "Merge"@,
        StatementKind::Execute => "Execute"@,
        StatementKind::Transaction => "Transaction"@,
        StatementKind::Unknown => "Unknown"@,
    }
}

impl Operation {
    /// The label: `READ`, `WRITE`, `EXECUTE` or `UNKNOWN`.
    pub fn to_string(&self) -> (r: String)
        ensures
            r@ == operation_label(*self),
    {
        let s = match self {
            Operation::Read => "READ",
            Operation::Write => "WRITE",
            Operation::Execute => "EXECUTE",
            Operation::Unknown => "UNKNOWN",
        };
        s.to_string()
    }
}

impl Severity {
    /// The label: `Low`, `Medium` or `High`.
    pub fn to_string(&self) -> (r: String)
        ensures
            r@ == severity_label(*self),
    {
        let s = match self {
            Severity::Low => "Low",
            Severity::Medium => "Medium",
            Severity::High => "High",
        };
        s.to_string()
    }
}

impl StatementKind {
    /// The label: the variant's name.
    pub fn to_string(&self) -> (r: String)
        ensures
            r@ == statement_kind_label(*self),
    {
        let s = match self {
            StatementKind::Select => "Select",
            StatementKind::Insert => "Insert",
            StatementKind::Update => "Update",
            StatementKind::Delete => "Delete",
            StatementKind::Merge => "Merge",
            StatementKind::Execute => "Execute",
            StatementKind::Transaction => "Transaction",
            StatementKind::Unknown => "Unknown",
        };
        s.to_string()
    }
}

impl TraceMetrics {
    pub open spec fn empty_spec() -> TraceMetrics {
        TraceMetrics { statement_count: 0, read_count: 0, write_count: 0, risk_level: Severity::Low }
    }

    /// No statements, no dependencies, risk level Low.
    pub fn empty() -> (r: TraceMetrics)
        ensures
            r == TraceMetrics::empty_spec(),
    {
        TraceMetrics { statement_count: 0, read_count: 0, write_count: 0, risk_level: Severity::Low }
    }
}

} // verus!
