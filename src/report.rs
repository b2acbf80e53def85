//! The Markdown text of the report: a title and one table row per
//! organization-owned fork.
use vstd::prelude::*;
use crate::record::{OrgFork, org_fork_views};

verus! {

pub open spec fn title_text(owner: Seq<char>, repo: Seq<char>) -> Seq<char> {
    "# Organization-owned forks for "@ + owner + "/"@ + repo + "\n\n"@
}

pub open spec fn table_head_text() -> Seq<char> {
    "| Organization | Fork Name | URL |\n"@ + "|--------------|----------|-----|\n"@
}

pub open spec fn row_text(line: (Seq<char>, Seq<char>, Seq<char>)) -> Seq<char> {
    "| "@ + line.0 + " | "@ + line.1 + " | "@ + line.2 + " |\n"@
}

pub open spec fn rows_text(lines: Seq<(Seq<char>, Seq<char>, Seq<char>)>) -> Seq<char>
    decreases lines.len(),
{
    if lines.len() == 0 {
        Seq::empty()
    } else {
        rows_text(lines.drop_last()) + row_text(lines.last())
    }
}

/// The whole report for the repository `owner/repo`.
pub open spec fn report_text(owner: Seq<char>, repo: Seq<char>, lines: Seq<(Seq<char>, Seq<char>, Seq<char>)>) -> Seq<char> {
    title_text(owner, repo) + table_head_text() + rows_text(lines)
}

/// Renders the report for the repository `owner/repo` with one row per line
/// of `forks`, in order.
pub fn render_report(owner: &str, repo: &str, forks: &Vec<OrgFork>) -> (r: String)
    ensures
        r@ == report_text(owner@, repo@, org_fork_views(forks@)),
{
    let mut out = String::new();
    out.append("# Organization-owned forks for ");
    out.append(owner);
    out.append("/");
    out.append(repo);
    out.append("\n\n");
    out.append("| Organization | Fork Name | URL |\n");
    out.append("|--------------|----------|-----|\n");
    let ghost lines = org_fork_views(forks@);
    let ghost head = title_text(owner@, repo@) + table_head_text();
    assert(out@ =~= head);
    let mut i: usize = 0;
    while i < forks.len()
        invariant
            i <= forks@.len(),
            lines == org_fork_views(forks@),
            out@ == head + rows_text(lines.take(i as int)),
        decreases forks@.len() - i,
    {
        let f = &forks[i];
        let ghost before = out@;
        out.append("| ");
        out.append(f.org_login.as_str());
        out.append(" | ");
        out.append(f.fork_name.as_str());
        out.append(" | ");
        out.append(f.fork_url.as_str());
        out.append(" |\n");
        proof {
            assert(lines.take(i + 1).drop_last() =~= lines.take(i as int));
            assert(lines.take(i + 1).last() == f.view());
            assert(out@ =~= before + row_text(f.view()));
            assert(head + rows_text(lines.take(i as int)) + row_text(f.view()) =~= head + rows_text(lines.take(i + 1)));
        }
        i = i + 1;
    }
    assert(lines.take(forks@.len() as int) =~= lines);
    out
}

/// Where the report goes when no path is given: `reports/<repo>_forks.md`.
pub fn default_output_path(repo: &str) -> (r: String)
    ensures
        r@ == "reports/"@ + repo@ + "_forks.md"@,
{
    let mut out = String::from_str("reports/");
    out.append(repo);
    out.append("_forks.md");
    out
}

} // verus!
