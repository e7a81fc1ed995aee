//! The list of watermarks that a removal found, in the order it found them.
use vstd::prelude::*;

verus! {

/// What one removal run found (or, in a dry run, would remove).
pub struct Report {
    pub dry_run: bool,
    pub entries: Vec<String>,
}

/// The line printed for one finding: a mark for preview or removal, then
/// the finding.
pub open spec fn report_line(dry_run: bool, entry: Seq<char>) -> Seq<char> {
    (if dry_run {
        "  [预览] "@
    } else {
        "  [已删] "@
    }) + entry
}

/// The line printed when nothing was found.
pub open spec fn empty_report_line() -> Seq<char> {
    "  （未检测到任何水印）"@
}

impl Report {
    /// The findings as text, in order.
    pub open spec fn messages(&self) -> Seq<Seq<char>> {
        self.entries@.map_values(|e: String| e@)
    }

    /// An empty report.
    pub fn new(dry_run: bool) -> (r: Report)
        ensures
            r.dry_run == dry_run,
            r.entries@.len() == 0,
    {
        Report { dry_run, entries: Vec::new() }
    }

    /// Records one finding after those already recorded.
    pub fn add(&mut self, msg: String)
        ensures
            final(self).dry_run == old(self).dry_run,
            final(self).messages() == old(self).messages().push(msg@),
    {
        let ghost before = self.messages();
        self.entries.push(msg);
        assert(self.messages() =~= before.push(msg@));
    }

    /// How many findings were recorded.
    pub fn total(&self) -> (n: usize)
        ensures
            n == self.entries@.len(),
    {
        self.entries.len()
    }

    /// The lines that show the report: one per finding, or one saying that
    /// nothing was found.
    pub fn lines(&self) -> (out: Vec<String>)
        ensures
            self.entries@.len() == 0 ==> out@.map_values(|l: String| l@) == seq![empty_report_line()],
            self.entries@.len() > 0 ==> out@.map_values(|l: String| l@) == self.messages().map_values(
                |e: Seq<char>| report_line(self.dry_run, e),
            ),
    {
        let mut out: Vec<String> = Vec::new();
        if self.entries.len() == 0 {
            out.push(String::from_str("  （未检测到任何水印）"));
            assert(out@.map_values(|l: String| l@) =~= seq![empty_report_line()]);
            return out;
        }
        let mut i: usize = 0;
        while i < self.entries.len()
            invariant
                i <= self.entries@.len(),
                out@.map_values(|l: String| l@) == self.messages().take(i as int).map_values(
                    |e: Seq<char>| report_line(self.dry_run, e),
                ),
            decreases self.entries@.len() - i,
        {
            let prefix = if self.dry_run {
                "  [预览] "
            } else {
                "  [已删] "
            };
            let mut line = String::from_str(prefix);
            line.append(self.entries[i].as_str());
            let ghost before = out@.map_values(|l: String| l@);
            out.push(line);
            assert(self.messages().take(i + 1) =~= self.messages().take(i as int).push(
                self.entries@[i as int]@,
            ));
            assert(out@.map_values(|l: String| l@) =~= before.push(line@));
            assert(out@.map_values(|l: String| l@) =~= self.messages().take(i + 1).map_values(
                |e: Seq<char>| report_line(self.dry_run, e),
            ));
            i = i + 1;
        }
        assert(self.messages().take(i as int) =~= self.messages());
        out
    }
}

} // verus!
