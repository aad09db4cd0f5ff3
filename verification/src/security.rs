//! CVE audits: the report of an audit and the text that summarises it.
use vstd::prelude::*;
use crate::text::{push_str, decimal, decimal_string};
use crate::adapters::registry::str_views;

verus! {

broadcast use vstd::string::group_string_axioms;

/// One vulnerable version found by an audit.
#[derive(Debug)]
pub struct AuditFinding {
    pub package: String,
    pub version: String,
    pub cve_id: String,
    pub severity: String,
    /// Packages of the project that transitively pull in the vulnerable version.
    pub affected_via: Vec<String>,
}

pub struct FindingView {
    pub package: Seq<char>,
    pub version: Seq<char>,
    pub cve_id: Seq<char>,
    pub severity: Seq<char>,
    pub affected_via: Seq<Seq<char>>,
}

impl View for AuditFinding {
    type V = FindingView;

    open spec fn view(&self) -> FindingView {
        FindingView {
            package: self.package@,
            version: self.version@,
            cve_id: self.cve_id@,
            severity: self.severity@,
            affected_via: str_views(self.affected_via@),
        }
    }
}

/// The result of an audit.
#[derive(Debug)]
pub struct AuditReport {
    pub findings: Vec<AuditFinding>,
}

/// The parts joined, with `sep` between each two.
pub open spec fn joined(parts: Seq<Seq<char>>, sep: Seq<char>) -> Seq<char>
    decreases parts.len(),
{
    if parts.len() == 0 {
        Seq::empty()
    } else if parts.len() == 1 {
        parts[0]
    } else {
        joined(parts.drop_last(), sep) + sep + parts.last()
    }
}

/// The two lines that describe one finding.
pub open spec fn finding_text(f: FindingView) -> Seq<char> {
    "  "@ + f.package + " "@ + f.version + " — "@ + f.cve_id + " ("@ + f.severity + ")\n    via: "@
        + joined(f.affected_via, " → "@) + "\n"@
}

/// The lines of all findings, in order.
pub open spec fn findings_text(fs: Seq<FindingView>) -> Seq<char>
    decreases fs.len(),
{
    if fs.len() == 0 {
        Seq::empty()
    } else {
        findings_text(fs.drop_last()) + finding_text(fs.last())
    }
}

/// The summary of a report: a reassurance when it is clean, else the number
/// of findings and each of them.
pub open spec fn summary_text(fs: Seq<FindingView>) -> Seq<char> {
    if fs.len() == 0 {
        "✓ No known vulnerabilities found.\n"@
    } else {
        "⚠ "@ + decimal(fs.len()) + " vulnerabilities found:\n"@ + findings_text(fs)
    }
}

/// The parts joined with `sep`.
pub fn join_strings(parts: &Vec<String>, sep: &str) -> (r: String)
    ensures
        r@ == joined(str_views(parts@), sep@),
{
    let ghost all = str_views(parts@);
    let mut r = String::new();
    let mut i: usize = 0;
    while i < parts.len()
        invariant
            i <= parts.len(),
            all == str_views(parts@),
            r@ == joined(all.take(i as int), sep@),
        decreases parts.len() - i,
    {
        assert(all.take(i as int + 1).drop_last() =~= all.take(i as int));
        assert(all.take(i as int + 1).last() == parts@[i as int]@);
        if i > 0 {
            push_str(&mut r, sep);
        } else {
            assert(joined(all.take(i as int), sep@) =~= Seq::<char>::empty());
        }
        push_str(&mut r, parts[i].as_str());
        i = i + 1;
    }
    assert(all.take(all.len() as int) =~= all);
    r
}

impl AuditFinding {
    /// The two lines that describe this finding.
    pub fn describe(&self) -> (r: String)
        ensures
            r@ == finding_text(self@),
    {
        let mut s = "  ".to_string();
        push_str(&mut s, self.package.as_str());
        push_str(&mut s, " ");
        push_str(&mut s, self.version.as_str());
        push_str(&mut s, " — ");
        push_str(&mut s, self.cve_id.as_str());
        push_str(&mut s, " (");
        push_str(&mut s, self.severity.as_str());
        push_str(&mut s, ")\n    via: ");
        let via = join_strings(&self.affected_via, " → ");
        push_str(&mut s, via.as_str());
        push_str(&mut s, "\n");
        s
    }
}

impl AuditReport {
    /// The views of the findings.
    pub open spec fn findings_view(&self) -> Seq<FindingView> {
        self.findings@.map_values(|f: AuditFinding| f@)
    }

    /// Whether the audit found nothing.
    pub fn is_clean(&self) -> (r: bool)
        ensures
            r == (self.findings@.len() == 0),
    {
        self.findings.len() == 0
    }

    /// The text that a summary of this report prints.
    pub fn summary(&self) -> (r: String)
        ensures
            r@ == summary_text(self.findings_view()),
    {
        if self.is_clean() {
            return "✓ No known vulnerabilities found.\n".to_string();
        }
        let ghost all = self.findings_view();
        let mut s = "⚠ ".to_string();
        let n = decimal_string(self.findings.len());
        push_str(&mut s, n.as_str());
        push_str(&mut s, " vulnerabilities found:\n");
        let ghost head = s@;
        let mut i: usize = 0;
        while i < self.findings.len()
            invariant
                i <= self.findings.len(),
                all == self.findings_view(),
                s@ == head + findings_text(all.take(i as int)),
            decreases self.findings.len() - i,
        {
            assert(all.take(i as int + 1).drop_last() =~= all.take(i as int));
            assert(all.take(i as int + 1).last() == self.findings@[i as int]@);
            let line = self.findings[i].describe();
            push_str(&mut s, line.as_str());
            assert(s@ =~= head + findings_text(all.take(i as int + 1)));
            i = i + 1;
        }
        assert(all.take(all.len() as int) =~= all);
        s
    }
}

/// The vulnerable versions that the advisory sources report for `project`;
/// none while no advisory source is wired up.
pub closed spec fn reported_findings(project: Seq<char>) -> Seq<FindingView> {
    seq![]
}

/// Runs audits of a project.
pub struct Auditor;

impl Auditor {
    /// Audits `project`: its report holds what the advisory sources report.
    pub fn run(&self, project: &str) -> (r: AuditReport)
        ensures
            r.findings_view() == reported_findings(project@),
    {
        let r = AuditReport { findings: Vec::new() };
        assert(r.findings_view() =~= reported_findings(project@));
        r
    }
}

/// The summary reassures exactly when the audit found nothing.
pub proof fn lemma_summary_clean(fs: Seq<FindingView>)
    ensures
        (summary_text(fs) == "✓ No known vulnerabilities found.\n"@) <==> fs.len() == 0,
{
    reveal_strlit("✓ No known vulnerabilities found.\n");
    reveal_strlit("⚠ ");
    if fs.len() > 0 {
        assert(summary_text(fs)[0] == '⚠');
    }
}

} // verus!
