//! SARIF reports as written by CodeQL, and the paths they describe.
use std::collections::HashMap;
use vstd::prelude::*;

use crate::text::{flat, owned};

verus! {

broadcast use vstd::string::group_string_axioms;

/// A SARIF report.
pub struct Sarif {
    schema: String,
    version: String,
    runs: Vec<SarifRuns>,
}

/// One run of a tool in a SARIF report.
pub struct SarifRuns {
    tool: serde_json::Value,
    artifacts: serde_json::Value,
    results: Vec<SarifResult>,
    column_kind: String,
    properties: serde_json::Value,
}

/// One result of a run.
pub struct SarifResult {
    rule_id: String,
    rule_index: u8,
    rule: serde_json::Value,
    message: ResultMsg,
    locations: Vec<SarifLocation>,
    code_flows: Vec<CodeFlow>,
    extra: HashMap<String, serde_json::Value>,
}

/// A message text.
#[derive(Debug)]
pub struct ResultMsg {
    text: String,
}

/// A location, as a thread flow lists it.
pub struct SarifLocationMap {
    location: SarifLocation,
}

/// A location with an optional message.
pub struct SarifLocation {
    physical_location: SarifPhysicalLocation,
    message: Option<ResultMsg>,
}

/// A place in an artifact.
pub struct SarifPhysicalLocation {
    artifact_location: SarifArtifactLocation,
    region: SarifLocationRegion,
}

/// A region of a source file.
#[derive(PartialEq, Eq, Structural, Debug, Clone, Copy)]
pub struct SarifLocationRegion {
    start_line: u32,
    start_column: u32,
    end_column: u32,
}

/// The artifact a location is in.
#[derive(Debug)]
pub struct SarifArtifactLocation {
    uri: String,
    uri_base_id: String,
    index: u32,
}

/// A code flow: one or more thread flows.
pub struct CodeFlow {
    thread_flows: Vec<ThreadFlow>,
}

/// A thread flow: a sequence of locations.
pub struct ThreadFlow {
    locations: Vec<SarifLocationMap>,
}

impl View for ResultMsg {
    type V = Seq<char>;

    closed spec fn view(&self) -> Seq<char> {
        self.text@
    }
}

impl PartialEq for ResultMsg {
    fn eq(&self, other: &Self) -> (r: bool) {
        self.text == other.text
    }
}

impl Eq for ResultMsg {}

impl vstd::std_specs::cmp::PartialEqSpecImpl for ResultMsg {
    open spec fn obeys_eq_spec() -> bool {
        true
    }

    open spec fn eq_spec(&self, other: &ResultMsg) -> bool {
        self@ == other@
    }
}

impl ResultMsg {
    pub fn new(text: String) -> (r: Self)
        ensures
            r@ == text@,
    {
        ResultMsg { text }
    }

    pub fn text(&self) -> (r: &str)
        ensures
            r@ == self@,
    {
        self.text.as_str()
    }
}

impl View for SarifLocationRegion {
    /// (start line, start column, end column)
    type V = (u32, u32, u32);

    closed spec fn view(&self) -> (u32, u32, u32) {
        (self.start_line, self.start_column, self.end_column)
    }
}

impl SarifLocationRegion {
    pub fn new(start_line: u32, start_column: u32, end_column: u32) -> (r: Self)
        ensures
            r@ == (start_line, start_column, end_column),
    {
        SarifLocationRegion { start_line, start_column, end_column }
    }

    pub fn start_line(&self) -> (r: u32)
        ensures
            r == self@.0,
    {
        self.start_line
    }

    pub fn start_column(&self) -> (r: u32)
        ensures
            r == self@.1,
    {
        self.start_column
    }

    pub fn end_column(&self) -> (r: u32)
        ensures
            r == self@.2,
    {
        self.end_column
    }
}

impl View for SarifArtifactLocation {
    /// (uri, uri base id, index)
    type V = (Seq<char>, Seq<char>, u32);

    closed spec fn view(&self) -> (Seq<char>, Seq<char>, u32) {
        (self.uri@, self.uri_base_id@, self.index)
    }
}

impl PartialEq for SarifArtifactLocation {
    fn eq(&self, other: &Self) -> (r: bool) {
        self.uri == other.uri && self.uri_base_id == other.uri_base_id && self.index == other.index
    }
}

impl Eq for SarifArtifactLocation {}

impl vstd::std_specs::cmp::PartialEqSpecImpl for SarifArtifactLocation {
    open spec fn obeys_eq_spec() -> bool {
        true
    }

    open spec fn eq_spec(&self, other: &SarifArtifactLocation) -> bool {
        self@ == other@
    }
}

impl SarifArtifactLocation {
    pub fn new(uri: String, uri_base_id: String, index: u32) -> (r: Self)
        ensures
            r@ == (uri@, uri_base_id@, index),
    {
        SarifArtifactLocation { uri, uri_base_id, index }
    }

    pub fn uri(&self) -> (r: &str)
        ensures
            r@ == self@.0,
    {
        self.uri.as_str()
    }

    pub fn uri_base_id(&self) -> (r: &str)
        ensures
            r@ == self@.1,
    {
        self.uri_base_id.as_str()
    }

    pub fn index(&self) -> (r: u32)
        ensures
            r == self@.2,
    {
        self.index
    }
}

impl SarifPhysicalLocation {
    pub closed spec fn artifact_view(&self) -> (Seq<char>, Seq<char>, u32) {
        self.artifact_location@
    }

    pub closed spec fn region_view(&self) -> SarifLocationRegion {
        self.region
    }

    pub fn new(artifact_location: SarifArtifactLocation, region: SarifLocationRegion) -> (r: Self)
        ensures
            r.artifact_view() == artifact_location@,
            r.region_view() == region,
    {
        SarifPhysicalLocation { artifact_location, region }
    }

    pub fn region(&self) -> (r: &SarifLocationRegion)
        ensures
            *r == self.region_view(),
    {
        &self.region
    }

    pub fn artifact_location(&self) -> (r: &SarifArtifactLocation)
        ensures
            r@ == self.artifact_view(),
    {
        &self.artifact_location
    }
}

/// The view of an optional message.
pub open spec fn opt_msg_view(m: Option<ResultMsg>) -> Option<Seq<char>> {
    match m {
        Some(x) => Some(x@),
        None => None,
    }
}

impl SarifLocation {
    pub closed spec fn physical(&self) -> SarifPhysicalLocation {
        self.physical_location
    }

    pub closed spec fn message_view(&self) -> Option<Seq<char>> {
        opt_msg_view(self.message)
    }

    pub fn new(physical_location: SarifPhysicalLocation, message: Option<ResultMsg>) -> (r: Self)
        ensures
            r.physical() == physical_location,
            r.message_view() == opt_msg_view(message),
    {
        SarifLocation { physical_location, message }
    }

    pub fn physical_location(&self) -> (r: &SarifPhysicalLocation)
        ensures
            *r == self.physical(),
    {
        &self.physical_location
    }

    pub fn message(&self) -> (r: &Option<ResultMsg>)
        ensures
            opt_msg_view(*r) == self.message_view(),
    {
        &self.message
    }

    /// The message text, if there is a message.
    pub fn message_to_string(&self) -> (r: Option<String>)
        ensures
            match r {
                Some(s) => self.message_view() == Some(s@),
                None => self.message_view() is None,
            },
    {
        match &self.message {
            Some(s) => Some(owned(s.text())),
            None => None,
        }
    }
}

impl SarifLocationMap {
    pub closed spec fn location_view(&self) -> SarifLocation {
        self.location
    }

    pub fn new(location: SarifLocation) -> (r: Self)
        ensures
            r.location_view() == location,
    {
        SarifLocationMap { location }
    }

    pub fn location(&self) -> (r: &SarifLocation)
        ensures
            *r == self.location_view(),
    {
        &self.location
    }
}

/// The text a message prints as: its text, or nothing.
pub open spec fn msg_or_empty(m: Option<Seq<char>>) -> Seq<char> {
    match m {
        Some(s) => s,
        None => Seq::empty(),
    }
}

impl ThreadFlow {
    pub closed spec fn locations_view(&self) -> Seq<SarifLocationMap> {
        self.locations@
    }

    /// The messages along the flow, in order.
    pub open spec fn msgs(&self) -> Seq<Option<Seq<char>>> {
        Seq::new(self.locations_view().len(), |i: int| self.locations_view()[i].location_view().message_view())
    }

    /// The printed lines of the flow: each message, or an empty line.
    pub open spec fn lines(&self) -> Seq<Seq<char>> {
        Seq::new(self.msgs().len(), |i: int| msg_or_empty(self.msgs()[i]))
    }

    pub fn new(locations: Vec<SarifLocationMap>) -> (r: Self)
        ensures
            r.locations_view() == locations@,
    {
        ThreadFlow { locations }
    }

    pub fn locations(&self) -> (r: &Vec<SarifLocationMap>)
        ensures
            r@ == self.locations_view(),
    {
        &self.locations
    }

    /// The message of every location along the flow, in order.
    pub fn get_msg_seq(&self) -> (r: Vec<Option<String>>)
        ensures
            r@.len() == self.msgs().len(),
            forall|i: int| 0 <= i < r@.len() ==> (match #[trigger] r@[i] {
                Some(s) => Some(s@),
                None => None,
            }) == self.msgs()[i],
    {
        let mut r: Vec<Option<String>> = Vec::new();
        let mut i: usize = 0;
        while i < self.locations.len()
            invariant
                i <= self.locations.len(),
                r@.len() == i,
                forall|j: int| 0 <= j < i ==> (match #[trigger] r@[j] {
                    Some(s) => Some(s@),
                    None => None,
                }) == self.msgs()[j],
            decreases self.locations.len() - i,
        {
            r.push(self.locations[i].location.message_to_string());
            i = i + 1;
        }
        r
    }

    /// The printed lines of the flow.
    fn line_texts(&self) -> (r: Vec<String>)
        ensures
            crate::text::views(r@) == self.lines(),
    {
        let msgs = self.get_msg_seq();
        let mut r: Vec<String> = Vec::new();
        let mut i: usize = 0;
        while i < msgs.len()
            invariant
                i <= msgs.len(),
                msgs@.len() == self.msgs().len(),
                forall|i: int| 0 <= i < msgs@.len() ==> (match #[trigger] msgs@[i] {
                    Some(s) => Some(s@),
                    None => None,
                }) == self.msgs()[i],
                crate::text::views(r@) == self.lines().take(i as int),
            decreases msgs.len() - i,
        {
            let line = match &msgs[i] {
                Some(s) => s.clone(),
                None => String::new(),
            };
            assert(line@ == self.lines()[i as int]);
            let ghost before = r@;
            r.push(line);
            assert(crate::text::views(r@) =~= crate::text::views(before).push(line@));
            assert(self.lines().take(i + 1) =~= self.lines().take(i as int).push(line@));
            i = i + 1;
        }
        assert(self.lines().take(i as int) =~= self.lines());
        r
    }
}

impl CodeFlow {
    pub closed spec fn thread_flows_view(&self) -> Seq<ThreadFlow> {
        self.thread_flows@
    }

    /// The printed lines of every thread flow, in order.
    pub open spec fn lines(&self) -> Seq<Seq<char>> {
        flat(Seq::new(self.thread_flows_view().len(), |i: int| self.thread_flows_view()[i].lines()))
    }

    pub fn new(thread_flows: Vec<ThreadFlow>) -> (r: Self)
        ensures
            r.thread_flows_view() == thread_flows@,
    {
        CodeFlow { thread_flows }
    }

    pub fn thread_flows(&self) -> (r: &Vec<ThreadFlow>)
        ensures
            r@ == self.thread_flows_view(),
    {
        &self.thread_flows
    }

    fn line_texts(&self) -> (r: Vec<String>)
        ensures
            crate::text::views(r@) == self.lines(),
    {
        let ghost parts = Seq::new(self.thread_flows_view().len(), |i: int| self.thread_flows_view()[i].lines());
        let mut r: Vec<String> = Vec::new();
        let mut i: usize = 0;
        while i < self.thread_flows.len()
            invariant
                i <= self.thread_flows.len(),
                parts == Seq::new(self.thread_flows_view().len(), |i: int| self.thread_flows_view()[i].lines()),
                crate::text::views(r@) == flat(parts.take(i as int)),
            decreases self.thread_flows.len() - i,
        {
            let mut more = self.thread_flows[i].line_texts();
            let ghost before = r@;
            let ghost added = more@;
            r.append(&mut more);
            assert(crate::text::views(r@) =~= crate::text::views(before) + crate::text::views(added));
            assert(parts.take(i + 1).drop_last() =~= parts.take(i as int));
            i = i + 1;
        }
        assert(parts.take(i as int) =~= parts);
        r
    }
}

impl SarifResult {
    pub closed spec fn rule_id_view(&self) -> Seq<char> {
        self.rule_id@
    }

    pub closed spec fn rule_index_view(&self) -> u8 {
        self.rule_index
    }

    pub closed spec fn message_view(&self) -> Seq<char> {
        self.message@
    }

    pub closed spec fn locations_view(&self) -> Seq<SarifLocation> {
        self.locations@
    }

    pub closed spec fn code_flows_view(&self) -> Seq<CodeFlow> {
        self.code_flows@
    }

    pub closed spec fn rule_value(&self) -> serde_json::Value {
        self.rule
    }

    pub closed spec fn extra_fields(&self) -> HashMap<String, serde_json::Value> {
        self.extra
    }

    /// The printed lines of every code flow, in order.
    pub open spec fn lines(&self) -> Seq<Seq<char>> {
        flat(Seq::new(self.code_flows_view().len(), |i: int| self.code_flows_view()[i].lines()))
    }

    pub fn new(
        rule_id: String,
        rule_index: u8,
        rule: serde_json::Value,
        message: ResultMsg,
        locations: Vec<SarifLocation>,
        code_flows: Vec<CodeFlow>,
        extra: HashMap<String, serde_json::Value>,
    ) -> (r: Self)
        ensures
            r.rule_id_view() == rule_id@,
            r.rule_index_view() == rule_index,
            r.message_view() == message@,
            r.locations_view() == locations@,
            r.code_flows_view() == code_flows@,
            r.rule_value() == rule,
            r.extra_fields() == extra,
    {
        SarifResult { rule_id, rule_index, rule, message, locations, code_flows, extra }
    }

    pub fn rule(&self) -> (r: &serde_json::Value)
        ensures
            *r == self.rule_value(),
    {
        &self.rule
    }

    pub fn extra(&self) -> (r: &HashMap<String, serde_json::Value>)
        ensures
            *r == self.extra_fields(),
    {
        &self.extra
    }

    pub fn rule_id(&self) -> (r: &str)
        ensures
            r@ == self.rule_id_view(),
    {
        self.rule_id.as_str()
    }

    pub fn rule_index(&self) -> (r: u8)
        ensures
            r == self.rule_index_view(),
    {
        self.rule_index
    }

    pub fn message(&self) -> (r: &ResultMsg)
        ensures
            r@ == self.message_view(),
    {
        &self.message
    }

    pub fn locations(&self) -> (r: &Vec<SarifLocation>)
        ensures
            r@ == self.locations_view(),
    {
        &self.locations
    }

    pub fn code_flows(&self) -> (r: &Vec<CodeFlow>)
        ensures
            r@ == self.code_flows_view(),
    {
        &self.code_flows
    }

    /// The region of the `n`-th location (from 0), if there is one.
    pub fn get_nth_loc_region(&self, n: usize) -> (r: Option<&SarifLocationRegion>)
        ensures
            n < self.locations_view().len() ==> r == Some(&self.locations_view()[n as int].physical().region_view()),
            n >= self.locations_view().len() ==> r is None,
    {
        if n >= self.locations.len() {
            return None;
        }
        Some(self.locations[n].physical_location().region())
    }

    /// The artifact of the `n`-th location (from 0), if there is one.
    pub fn get_nth_loc_artifact_loc(&self, n: usize) -> (r: Option<&SarifArtifactLocation>)
        ensures
            n < self.locations_view().len() ==> (r matches Some(a) && a@ == self.locations_view()[n as int].physical().artifact_view()),
            n >= self.locations_view().len() ==> r is None,
    {
        if n >= self.locations.len() {
            return None;
        }
        Some(self.locations[n].physical_location().artifact_location())
    }

    /// Same message, and the same artifact and region at the first location
    /// (or no location on both sides).
    pub open spec fn same_msg_and_region(&self, other: &SarifResult) -> bool {
        &&& self.message_view() == other.message_view()
        &&& (self.locations_view().len() == 0) == (other.locations_view().len() == 0)
        &&& self.locations_view().len() > 0 ==> {
            &&& self.locations_view()[0].physical().artifact_view() == other.locations_view()[0].physical().artifact_view()
            &&& self.locations_view()[0].physical().region_view() == other.locations_view()[0].physical().region_view()
        }
    }

    /// Whether both results have the same message and the same first location.
    pub fn is_same_msg_and_region(&self, other: &SarifResult) -> (r: bool)
        ensures
            r == self.same_msg_and_region(other),
    {
        if self.message != other.message {
            return false;
        }
        let a1 = self.get_nth_loc_artifact_loc(0);
        let a2 = other.get_nth_loc_artifact_loc(0);
        let same_artifact = match (a1, a2) {
            (Some(x), Some(y)) => *x == *y,
            (None, None) => true,
            _ => false,
        };
        let r1 = self.get_nth_loc_region(0);
        let r2 = other.get_nth_loc_region(0);
        let same_region = match (r1, r2) {
            (Some(x), Some(y)) => *x == *y,
            (None, None) => true,
            _ => false,
        };
        same_artifact && same_region
    }

    fn line_texts(&self) -> (r: Vec<String>)
        ensures
            crate::text::views(r@) == self.lines(),
    {
        let ghost parts = Seq::new(self.code_flows_view().len(), |i: int| self.code_flows_view()[i].lines());
        let mut r: Vec<String> = Vec::new();
        let mut i: usize = 0;
        while i < self.code_flows.len()
            invariant
                i <= self.code_flows.len(),
                parts == Seq::new(self.code_flows_view().len(), |i: int| self.code_flows_view()[i].lines()),
                crate::text::views(r@) == flat(parts.take(i as int)),
            decreases self.code_flows.len() - i,
        {
            let mut more = self.code_flows[i].line_texts();
            let ghost before = r@;
            let ghost added = more@;
            r.append(&mut more);
            assert(crate::text::views(r@) =~= crate::text::views(before) + crate::text::views(added));
            assert(parts.take(i + 1).drop_last() =~= parts.take(i as int));
            i = i + 1;
        }
        assert(parts.take(i as int) =~= parts);
        r
    }
}

impl SarifRuns {
    pub closed spec fn results_view(&self) -> Seq<SarifResult> {
        self.results@
    }

    pub closed spec fn column_kind_view(&self) -> Seq<char> {
        self.column_kind@
    }

    pub closed spec fn tool_value(&self) -> serde_json::Value {
        self.tool
    }

    pub closed spec fn artifacts_value(&self) -> serde_json::Value {
        self.artifacts
    }

    pub closed spec fn properties_value(&self) -> serde_json::Value {
        self.properties
    }

    /// The printed lines of every result, in order.
    pub open spec fn lines(&self) -> Seq<Seq<char>> {
        flat(Seq::new(self.results_view().len(), |i: int| self.results_view()[i].lines()))
    }

    pub fn new(
        tool: serde_json::Value,
        artifacts: serde_json::Value,
        results: Vec<SarifResult>,
        column_kind: String,
        properties: serde_json::Value,
    ) -> (r: Self)
        ensures
            r.results_view() == results@,
            r.column_kind_view() == column_kind@,
            r.tool_value() == tool,
            r.artifacts_value() == artifacts,
            r.properties_value() == properties,
    {
        SarifRuns { tool, artifacts, results, column_kind, properties }
    }

    pub fn tool(&self) -> (r: &serde_json::Value)
        ensures
            *r == self.tool_value(),
    {
        &self.tool
    }

    pub fn artifacts(&self) -> (r: &serde_json::Value)
        ensures
            *r == self.artifacts_value(),
    {
        &self.artifacts
    }

    pub fn column_kind(&self) -> (r: &str)
        ensures
            r@ == self.column_kind_view(),
    {
        self.column_kind.as_str()
    }

    pub fn properties(&self) -> (r: &serde_json::Value)
        ensures
            *r == self.properties_value(),
    {
        &self.properties
    }

    pub fn results(&self) -> (r: &Vec<SarifResult>)
        ensures
            r@ == self.results_view(),
    {
        &self.results
    }

    fn line_texts(&self) -> (r: Vec<String>)
        ensures
            crate::text::views(r@) == self.lines(),
    {
        let ghost parts = Seq::new(self.results_view().len(), |i: int| self.results_view()[i].lines());
        let mut r: Vec<String> = Vec::new();
        let mut i: usize = 0;
        while i < self.results.len()
            invariant
                i <= self.results.len(),
                parts == Seq::new(self.results_view().len(), |i: int| self.results_view()[i].lines()),
                crate::text::views(r@) == flat(parts.take(i as int)),
            decreases self.results.len() - i,
        {
            let mut more = self.results[i].line_texts();
            let ghost before = r@;
            let ghost added = more@;
            r.append(&mut more);
            assert(crate::text::views(r@) =~= crate::text::views(before) + crate::text::views(added));
            assert(parts.take(i + 1).drop_last() =~= parts.take(i as int));
            i = i + 1;
        }
        assert(parts.take(i as int) =~= parts);
        r
    }
}

impl Sarif {
    pub closed spec fn schema_view(&self) -> Seq<char> {
        self.schema@
    }

    pub closed spec fn version_view(&self) -> Seq<char> {
        self.version@
    }

    pub closed spec fn runs_view(&self) -> Seq<SarifRuns> {
        self.runs@
    }

    /// The printed lines of every run, in order.
    pub open spec fn lines(&self) -> Seq<Seq<char>> {
        flat(Seq::new(self.runs_view().len(), |i: int| self.runs_view()[i].lines()))
    }

    pub fn new(schema: String, version: String, runs: Vec<SarifRuns>) -> (r: Self)
        ensures
            r.schema_view() == schema@,
            r.version_view() == version@,
            r.runs_view() == runs@,
    {
        Sarif { schema, version, runs }
    }

    pub fn schema(&self) -> (r: &str)
        ensures
            r@ == self.schema_view(),
    {
        self.schema.as_str()
    }

    pub fn version(&self) -> (r: &str)
        ensures
            r@ == self.version_view(),
    {
        self.version.as_str()
    }

    pub fn runs(&self) -> (r: &Vec<SarifRuns>)
        ensures
            r@ == self.runs_view(),
    {
        &self.runs
    }

    fn line_texts(&self) -> (r: Vec<String>)
        ensures
            crate::text::views(r@) == self.lines(),
    {
        let ghost parts = Seq::new(self.runs_view().len(), |i: int| self.runs_view()[i].lines());
        let mut r: Vec<String> = Vec::new();
        let mut i: usize = 0;
        while i < self.runs.len()
            invariant
                i <= self.runs.len(),
                parts == Seq::new(self.runs_view().len(), |i: int| self.runs_view()[i].lines()),
                crate::text::views(r@) == flat(parts.take(i as int)),
            decreases self.runs.len() - i,
        {
            let mut more = self.runs[i].line_texts();
            let ghost before = r@;
            let ghost added = more@;
            r.append(&mut more);
            assert(crate::text::views(r@) =~= crate::text::views(before) + crate::text::views(added));
            assert(parts.take(i + 1).drop_last() =~= parts.take(i as int));
            i = i + 1;
        }
        assert(parts.take(i as int) =~= parts);
        r
    }
}

/// The lines printed for a set of reports: the message of every location
/// along every thread flow of every code flow of every result of every run
/// (an empty line where a location has no message), in order.
pub open spec fn merged_lines(reports: Seq<Sarif>) -> Seq<Seq<char>> {
    flat(Seq::new(reports.len(), |i: int| reports[i].lines()))
}

/// The lines to print for the path messages of the reports, in order (an
/// empty line for a location without a message).
pub fn merge_paths(multiple_sarif: &Vec<Sarif>) -> (r: Vec<String>)
    ensures
        crate::text::views(r@) == merged_lines(multiple_sarif@),
{
    let ghost parts = Seq::new(multiple_sarif@.len(), |i: int| multiple_sarif@[i].lines());
    let mut r: Vec<String> = Vec::new();
    let mut i: usize = 0;
    while i < multiple_sarif.len()
        invariant
            i <= multiple_sarif.len(),
            parts == Seq::new(multiple_sarif@.len(), |i: int| multiple_sarif@[i].lines()),
            crate::text::views(r@) == flat(parts.take(i as int)),
        decreases multiple_sarif.len() - i,
    {
        let mut more = multiple_sarif[i].line_texts();
        let ghost before = r@;
        let ghost added = more@;
        r.append(&mut more);
        assert(crate::text::views(r@) =~= crate::text::views(before) + crate::text::views(added));
        assert(parts.take(i + 1).drop_last() =~= parts.take(i as int));
        i = i + 1;
    }
    assert(parts.take(i as int) =~= parts);
    r
}

/// Every path message is printed: for any location of any thread flow of any
/// code flow of any result of any run of any report, its message (an empty
/// line where it has none) is among the merged lines.
pub proof fn lemma_merged_lines_cover(reports: Seq<Sarif>, a: int, b: int, c: int, d: int, e: int, g: int)
    requires
        is_location(reports, a, b, c, d, e, g),
    ensures
        merged_lines(reports).contains(location_line(reports, a, b, c, d, e, g)),
{
    let rep = reports[a];
    let run = rep.runs_view()[b];
    let res = run.results_view()[c];
    let cf = res.code_flows_view()[d];
    let tf = cf.thread_flows_view()[e];
    let line = msg_or_empty(tf.locations_view()[g].location_view().message_view());
    assert(tf.lines()[g] == line);
    assert(tf.lines().contains(line));
    let tparts = Seq::new(cf.thread_flows_view().len(), |i: int| cf.thread_flows_view()[i].lines());
    assert(tparts[e] == tf.lines());
    crate::text::lemma_flat_contains(tparts, e, line);
    let cparts = Seq::new(res.code_flows_view().len(), |i: int| res.code_flows_view()[i].lines());
    assert(cparts[d] == cf.lines());
    crate::text::lemma_flat_contains(cparts, d, line);
    let rparts = Seq::new(run.results_view().len(), |i: int| run.results_view()[i].lines());
    assert(rparts[c] == res.lines());
    crate::text::lemma_flat_contains(rparts, c, line);
    let uparts = Seq::new(rep.runs_view().len(), |i: int| rep.runs_view()[i].lines());
    assert(uparts[b] == run.lines());
    crate::text::lemma_flat_contains(uparts, b, line);
    let sparts = Seq::new(reports.len(), |i: int| reports[i].lines());
    assert(sparts[a] == rep.lines());
    crate::text::lemma_flat_contains(sparts, a, line);
}

/// The indices name a location: report `a`, run `b`, result `c`, code flow
/// `d`, thread flow `e`, location `g`.
pub open spec fn is_location(reports: Seq<Sarif>, a: int, b: int, c: int, d: int, e: int, g: int) -> bool {
    &&& 0 <= a < reports.len()
    &&& 0 <= b < reports[a].runs_view().len()
    &&& 0 <= c < reports[a].runs_view()[b].results_view().len()
    &&& 0 <= d < reports[a].runs_view()[b].results_view()[c].code_flows_view().len()
    &&& 0 <= e < reports[a].runs_view()[b].results_view()[c].code_flows_view()[d].thread_flows_view().len()
    &&& 0 <= g < reports[a].runs_view()[b].results_view()[c].code_flows_view()[d].thread_flows_view()[e].locations_view().len()
}

/// The line printed for a location: its message, or an empty line.
pub open spec fn location_line(reports: Seq<Sarif>, a: int, b: int, c: int, d: int, e: int, g: int) -> Seq<char> {
    msg_or_empty(
        reports[a].runs_view()[b].results_view()[c].code_flows_view()[d].thread_flows_view()[e].locations_view()[g].location_view().message_view(),
    )
}

/// Nothing else is printed: every merged line is the line of some location.
pub proof fn lemma_merged_lines_come_from_locations(reports: Seq<Sarif>, idx: int)
    requires
        0 <= idx < merged_lines(reports).len(),
    ensures
        exists|a: int, b: int, c: int, d: int, e: int, g: int|
            is_location(reports, a, b, c, d, e, g) && #[trigger] location_line(reports, a, b, c, d, e, g)
                == merged_lines(reports)[idx],
{
    let x = merged_lines(reports)[idx];
    let sparts = Seq::new(reports.len(), |i: int| reports[i].lines());
    crate::text::lemma_flat_member(sparts, idx);
    let (a, i1) = choose|i: int, k: int| 0 <= i < sparts.len() && 0 <= k < sparts[i].len() && #[trigger] sparts[i][k] == flat(sparts)[idx];
    let rep = reports[a];
    let uparts = Seq::new(rep.runs_view().len(), |i: int| rep.runs_view()[i].lines());
    assert(sparts[a] == flat(uparts));
    crate::text::lemma_flat_member(uparts, i1);
    let (b, i2) = choose|i: int, k: int| 0 <= i < uparts.len() && 0 <= k < uparts[i].len() && #[trigger] uparts[i][k] == flat(uparts)[i1];
    let run = rep.runs_view()[b];
    let rparts = Seq::new(run.results_view().len(), |i: int| run.results_view()[i].lines());
    assert(uparts[b] == flat(rparts));
    crate::text::lemma_flat_member(rparts, i2);
    let (c, i3) = choose|i: int, k: int| 0 <= i < rparts.len() && 0 <= k < rparts[i].len() && #[trigger] rparts[i][k] == flat(rparts)[i2];
    let res = run.results_view()[c];
    let cparts = Seq::new(res.code_flows_view().len(), |i: int| res.code_flows_view()[i].lines());
    assert(rparts[c] == flat(cparts));
    crate::text::lemma_flat_member(cparts, i3);
    let (d, i4) = choose|i: int, k: int| 0 <= i < cparts.len() && 0 <= k < cparts[i].len() && #[trigger] cparts[i][k] == flat(cparts)[i3];
    let cf = res.code_flows_view()[d];
    let tparts = Seq::new(cf.thread_flows_view().len(), |i: int| cf.thread_flows_view()[i].lines());
    assert(cparts[d] == flat(tparts));
    crate::text::lemma_flat_member(tparts, i4);
    let (e, g) = choose|i: int, k: int| 0 <= i < tparts.len() && 0 <= k < tparts[i].len() && #[trigger] tparts[i][k] == flat(tparts)[i4];
    let tf = cf.thread_flows_view()[e];
    assert(tparts[e] == tf.lines());
    assert(tf.lines()[g] == location_line(reports, a, b, c, d, e, g));
    assert(is_location(reports, a, b, c, d, e, g));
}

} // verus!
