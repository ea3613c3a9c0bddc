//! The ranking of the best results: a bounded list, best first.

use vstd::prelude::*;
use crate::configuration::{Configuration, ConfigurationError};
use crate::template::{compiled, with_value, Template, TemplateData};
use crate::text::{chars_of, decimal, decimal_of, joined, last_of, rfind, slice, string_of};
use crate::VERSION;

verus! {

/// One result: how well a loadout performed and where the simulator's
/// account of it lies.
#[derive(Debug)]
pub struct Report {
    pub html: String,
    pub dps: u64,
}

impl Clone for Report {
    fn clone(&self) -> (copy: Report)
        ensures
            copy == *self,
    {
        Report { html: self.html.clone(), dps: self.dps }
    }
}

/// Whether no result stands behind a worse one.
pub open spec fn descending(entries: Seq<Report>) -> bool {
    forall|i: int, j: int| 0 <= i < j < entries.len() ==> entries[i].dps >= entries[j].dps
}

/// How many of the results are at least as good as `dps`: the place at
/// which a new result of that value goes, behind its equals.
pub open spec fn ahead(entries: Seq<Report>, dps: u64) -> nat
    decreases entries.len(),
{
    if entries.len() == 0 {
        0
    } else {
        ahead(entries.drop_last(), dps) + if entries.last().dps >= dps {
            1nat
        } else {
            0nat
        }
    }
}

/// The ranking after a result was offered to it: the result goes behind
/// every result that is at least as good, the ranking keeps no more than
/// `capacity` results, and so loses its last where it was full. A result
/// that would go behind a full ranking is not taken.
pub open spec fn offered(entries: Seq<Report>, capacity: nat, report: Report) -> Seq<Report> {
    let at = ahead(entries, report.dps);
    if at >= capacity {
        entries
    } else if entries.len() < capacity {
        entries.insert(at as int, report)
    } else {
        entries.insert(at as int, report).drop_last()
    }
}

/// What it means to have offered a result of the value `dps`, with its
/// account at `html`, to a ranking: `rank` is the place at which the
/// result was taken, if it was, and `after` is the ranking that came of
/// it.
pub open spec fn pushed(
    before: Seq<Report>,
    capacity: nat,
    dps: u64,
    html: Seq<char>,
    rank: Option<usize>,
    after: Seq<Report>,
) -> bool {
    match rank {
        Some(at) => {
            &&& at == ahead(before, dps)
            &&& at < capacity
            &&& at < after.len()
            &&& after[at as int].dps == dps
            &&& after[at as int].html@ == html
            &&& after == offered(before, capacity, after[at as int])
        },
        None => ahead(before, dps) >= capacity && after == before,
    }
}

/// The worst and the best value of a ranking; zero for both where it is
/// empty.
pub open spec fn bounds(entries: Seq<Report>) -> (u64, u64) {
    if entries.len() == 0 {
        (0, 0)
    } else {
        (entries.last().dps, entries.first().dps)
    }
}

/// In a ranking that is in order the results at least as good as `dps` are
/// the ones in front of the first worse one.
proof fn lemma_ahead(entries: Seq<Report>, dps: u64, at: int)
    requires
        descending(entries),
        0 <= at <= entries.len(),
        forall|i: int| 0 <= i < at ==> entries[i].dps >= dps,
        at < entries.len() ==> entries[at].dps < dps,
    ensures
        ahead(entries, dps) == at,
    decreases entries.len(),
{
    if entries.len() > 0 {
        let front = entries.drop_last();
        if at == entries.len() {
            lemma_ahead(front, dps, at - 1);
        } else {
            assert(entries[at].dps >= entries.last().dps);
            lemma_ahead(front, dps, at);
        }
    }
}

/// Offering a result to a ranking that is in order and within its bound
/// leaves it so.
pub proof fn lemma_offered_in_order(entries: Seq<Report>, capacity: nat, report: Report)
    requires
        descending(entries),
        entries.len() <= capacity,
    ensures
        descending(offered(entries, capacity, report)),
        offered(entries, capacity, report).len() <= capacity,
{
    let at = ahead(entries, report.dps) as int;
    lemma_ahead_splits(entries, report.dps);
    if at < capacity {
        let grown = entries.insert(at, report);
        assert forall|i: int, j: int| 0 <= i < j < grown.len() implies grown[i].dps >= grown[j].dps by {
            if j < at {
                assert(grown[i] == entries[i] && grown[j] == entries[j]);
            } else if j == at {
                assert(grown[i] == entries[i]);
            } else if i < at {
                assert(grown[i] == entries[i] && grown[j] == entries[j - 1]);
            } else if i == at {
                assert(grown[j] == entries[j - 1]);
            } else {
                assert(grown[i] == entries[i - 1] && grown[j] == entries[j - 1]);
            }
        }
    }
}

/// In a ranking that is in order the results at least as good as `dps`
/// come first and the worse ones behind them.
pub proof fn lemma_ahead_splits(entries: Seq<Report>, dps: u64)
    requires
        descending(entries),
    ensures
        ahead(entries, dps) <= entries.len(),
        forall|i: int| 0 <= i < ahead(entries, dps) ==> entries[i].dps >= dps,
        forall|i: int| ahead(entries, dps) <= i < entries.len() ==> entries[i].dps < dps,
    decreases entries.len(),
{
    if entries.len() > 0 {
        let front = entries.drop_last();
        lemma_ahead_splits(front, dps);
        if entries.last().dps >= dps {
            assert forall|i: int| 0 <= i < entries.len() implies entries[i].dps >= dps by {
                assert(entries[i].dps >= entries.last().dps);
            }
            if ahead(front, dps) < front.len() {
                assert(front[ahead(front, dps) as int].dps < dps);
                assert(false);
            }
        } else {
            assert forall|i: int| 0 <= i < ahead(entries, dps) implies entries[i].dps >= dps by {
                assert(front[i] == entries[i]);
            }
            assert forall|i: int| ahead(entries, dps) <= i < entries.len() implies entries[i].dps
                < dps by {
                if i < front.len() {
                    assert(front[i] == entries[i]);
                }
            }
        }
    }
}

/// How many hundredths of the best result a result reaches, rounded to
/// the nearest; zero where the best result is zero.
pub open spec fn share_of(dps: u64, max: u64) -> nat {
    if max == 0 {
        0
    } else {
        ((dps * 100 + max / 2) / (max as int)) as nat
    }
}

/// The name under which a result is listed: the last part of the path of
/// its account, from the last slash on.
pub open spec fn report_name(html: Seq<char>) -> Seq<char> {
    match last_of(html, '/') {
        Some(at) => html.skip(at),
        None => "unknown"@,
    }
}

/// The path of the account of a result as seen from the directory of the
/// reports: what stands behind the directory and the slash after it.
pub open spec fn report_file(dir: Seq<char>, html: Seq<char>) -> Seq<char> {
    if dir.len() + 1 < html.len() {
        html.skip(dir.len() as int + 1)
    } else {
        "unkown"@
    }
}

/// The template of one line of the list, filled in for a result.
pub open spec fn entry_filled(entry: TemplateData, dir: Seq<char>, report: Report, max: u64) -> TemplateData {
    with_value(
        with_value(
            with_value(
                with_value(entry, "dps"@, decimal(report.dps as nat)),
                "val_now"@,
                decimal(share_of(report.dps, max)),
            ),
            "html_report_file"@,
            report_file(dir, report.html@),
        ),
        "html_report_name"@,
        report_name(report.html@),
    )
}

/// The list of the results: the template of one line, filled in and
/// compiled for one result after the other. Together with the list comes
/// the template as the last result left it.
pub open spec fn entries_rendered(
    entry: TemplateData,
    dir: Seq<char>,
    reports: Seq<Report>,
    max: u64,
) -> (TemplateData, Seq<char>)
    decreases reports.len(),
{
    if reports.len() == 0 {
        (entry, Seq::empty())
    } else {
        let before = entries_rendered(entry, dir, reports.drop_last(), max);
        let filled = entry_filled(before.0, dir, reports.last(), max);
        (filled, before.1 + compiled(filled))
    }
}

/// The template of the report, filled in with the bounds of the ranking
/// and the list of the results.
pub open spec fn report_filled(report: TemplateData, min: u64, max: u64, list: Seq<char>) -> TemplateData {
    with_value(
        with_value(with_value(report, "min_dps"@, decimal(min as nat)), "max_dps"@, decimal(max as nat)),
        "report_list"@,
        list,
    )
}

/// The template of the report as a new ranking holds it: with the size of
/// the ranking, the directory of the reports and the version filled in.
pub open spec fn report_prepared(report: TemplateData, best_of: usize, dir: Seq<char>) -> TemplateData {
    with_value(
        with_value(with_value(report, "best_of"@, decimal(best_of as nat)), "report_dir"@, dir),
        "version"@,
        VERSION@,
    )
}

/// The ranking of the best results, with the templates from which its
/// report is made.
pub struct Generator {
    best_of: usize,
    report_dir: String,
    reports: Vec<Report>,
    tpl_report: Template,
    tpl_list_entry: Template,
}

impl View for Generator {
    type V = Seq<Report>;

    closed spec fn view(&self) -> Seq<Report> {
        self.reports@
    }
}

impl Generator {
    #[verifier::type_invariant]
    spec fn inv(&self) -> bool {
        &&& self.best_of >= 1
        &&& self.reports@.len() <= self.best_of
        &&& descending(self.reports@)
    }

    /// How many results the ranking keeps at most.
    pub closed spec fn capacity(&self) -> nat {
        self.best_of as nat
    }

    /// The directory in which the accounts of the results lie.
    pub closed spec fn directory(&self) -> Seq<char> {
        self.report_dir@
    }

    /// The template of the report.
    pub closed spec fn report_template(&self) -> TemplateData {
        self.tpl_report@
    }

    /// The template of one line of the list of results.
    pub closed spec fn entry_template(&self) -> TemplateData {
        self.tpl_list_entry@
    }

    /// An empty ranking that keeps the best results, as many as the
    /// configuration says. A ranking that keeps nothing is refused.
    /// `reports` is the directory in which the accounts of the results
    /// lie, `report` the template of the report and `list_entry` the
    /// template of one line of its list.
    pub fn new(
        configuration: &Configuration,
        reports: &str,
        report: Template,
        list_entry: Template,
    ) -> (made: Result<Generator, ConfigurationError>)
        ensures
            match made {
                Ok(ranking) => {
                    &&& configuration.simcraft.best_of >= 1
                    &&& ranking@ == Seq::<Report>::empty()
                    &&& ranking.capacity() == configuration.simcraft.best_of
                    &&& ranking.directory() == reports@
                    &&& ranking.report_template() == report_prepared(
                        report@,
                        configuration.simcraft.best_of,
                        reports@,
                    )
                    &&& ranking.entry_template() == list_entry@
                },
                Err(e) => configuration.simcraft.best_of == 0 && e
                    == ConfigurationError::EmptyRanking,
            },
    {
        let best_of = configuration.simcraft.best_of;
        if best_of == 0 {
            return Err(ConfigurationError::EmptyRanking);
        }
        let mut report = report;
        let size = string_of(&decimal_of(best_of as u64));
        let _ = report.set_var("best_of", size.as_str());
        let _ = report.set_var("report_dir", reports);
        let _ = report.set_var("version", VERSION);
        Ok(
            Generator {
                best_of,
                report_dir: String::from_str(reports),
                reports: Vec::new(),
                tpl_report: report,
                tpl_list_entry: list_entry,
            },
        )
    }

    /// Offers a result to the ranking and says at which place it was
    /// taken, counted from zero, if it was taken. It goes behind every
    /// result that is at least as good; it is not taken where that is
    /// behind the last place of a full ranking. The ranking stays in
    /// order and within its bound.
    pub fn push(&mut self, dps: u64, html_report: &str) -> (rank: Option<usize>)
        ensures
            final(self).capacity() == old(self).capacity(),
            final(self).directory() == old(self).directory(),
            final(self).report_template() == old(self).report_template(),
            final(self).entry_template() == old(self).entry_template(),
            final(self)@.len() <= final(self).capacity(),
            descending(final(self)@),
            pushed(old(self)@, old(self).capacity(), dps, html_report@, rank, final(self)@),
    {
        proof {
            use_type_invariant(&*self);
        }
        let mut at: usize = 0;
        while at < self.reports.len() && dps <= self.reports[at].dps
            invariant
                at <= self.reports@.len(),
                forall|i: int| 0 <= i < at ==> self.reports@[i].dps >= dps,
            decreases self.reports@.len() - at,
        {
            at += 1;
        }
        proof {
            lemma_ahead(self.reports@, dps, at as int);
        }
        if at >= self.best_of {
            return None;
        }
        let report = Report { html: String::from_str(html_report), dps };
        let ghost before = self.reports@;
        proof {
            lemma_offered_in_order(before, self.best_of as nat, report);
        }
        // The list is worked on outside the ranking, which is empty
        // meanwhile, so that it is in order and within its bound at every
        // moment.
        let mut reports: Vec<Report> = Vec::new();
        core::mem::swap(&mut self.reports, &mut reports);
        reports.insert(at, report);
        if reports.len() > self.best_of {
            reports.pop();
        }
        core::mem::swap(&mut self.reports, &mut reports);
        Some(at)
    }

    /// How many results the ranking holds.
    pub fn len(&self) -> (count: usize)
        ensures
            count == self@.len(),
            count <= self.capacity(),
    {
        proof {
            use_type_invariant(self);
        }
        self.reports.len()
    }

    /// The worst and the best value in the ranking, in that order; zero
    /// for both while the ranking is empty.
    pub fn min_max_dps(&self) -> (range: (u64, u64))
        ensures
            range == bounds(self@),
            range.0 <= range.1,
            forall|i: int| 0 <= i < self@.len() ==> range.0 <= (#[trigger] self@[i]).dps <= range.1,
    {
        proof {
            use_type_invariant(self);
        }
        let n = self.reports.len();
        if n == 0 {
            (0, 0)
        } else {
            (self.reports[n - 1].dps, self.reports[0].dps)
        }
    }

    /// Where the report goes: the file `report.html` in the directory of
    /// the reports.
    pub fn report_path(&self) -> (path: String)
        ensures
            path@ == self.directory() + "/report.html"@,
    {
        string_of(&joined(&chars_of(self.report_dir.as_str()), &chars_of("/report.html")))
    }

    /// Writes the report: the template of the report with the worst and
    /// the best result of the ranking and the list of the results filled
    /// in, the list being the template of one line filled in for each
    /// result, best first. The ranking stays as it is; the templates keep
    /// what was filled in.
    pub fn compile(&mut self) -> (text: String)
        ensures
            final(self)@ == old(self)@,
            final(self).capacity() == old(self).capacity(),
            final(self).directory() == old(self).directory(),
            final(self).entry_template() == entries_rendered(
                old(self).entry_template(),
                old(self).directory(),
                old(self)@,
                bounds(old(self)@).1,
            ).0,
            final(self).report_template() == report_filled(
                old(self).report_template(),
                bounds(old(self)@).0,
                bounds(old(self)@).1,
                entries_rendered(
                    old(self).entry_template(),
                    old(self).directory(),
                    old(self)@,
                    bounds(old(self)@).1,
                ).1,
            ),
            text@ == compiled(final(self).report_template()),
    {
        proof {
            use_type_invariant(&*self);
        }
        let range = self.min_max_dps();
        let mut entry = Template::default();
        core::mem::swap(&mut self.tpl_list_entry, &mut entry);
        let ghost first = entry@;
        let ghost dir = self.report_dir@;
        let ghost all = self.reports@;
        let mut entries: Vec<char> = Vec::new();
        let mut i: usize = 0;
        while i < self.reports.len()
            invariant
                i <= self.reports@.len(),
                all == self.reports@,
                dir == self.report_dir@,
                forall|k: int| 0 <= k < all.len() ==> (#[trigger] all[k]).dps <= range.1,
                (entry@, entries@) == entries_rendered(first, dir, all.take(i as int), range.1),
            decreases self.reports@.len() - i,
        {
            proof {
                assert(all.take(i + 1).drop_last() =~= all.take(i as int));
                assert(all.take(i + 1).last() == all[i as int]);
            }
            let dps = string_of(&decimal_of(self.reports[i].dps));
            let share = string_of(&decimal_of(Generator::share(self.reports[i].dps, range.1)));
            let file = self._get_report_file(self.reports[i].html.as_str());
            let name = self._get_report_name(self.reports[i].html.as_str());
            let _ = entry.set_var("dps", dps.as_str());
            let _ = entry.set_var("val_now", share.as_str());
            let _ = entry.set_var("html_report_file", file.as_str());
            let _ = entry.set_var("html_report_name", name.as_str());
            let line = entry.compile();
            match line {
                Ok(line) => {
                    entries = joined(&entries, &chars_of(line.as_str()));
                },
                Err(_) => {},
            }
            i += 1;
        }
        proof {
            assert(all.take(all.len() as int) =~= all);
        }
        core::mem::swap(&mut self.tpl_list_entry, &mut entry);
        let mut report = Template::default();
        core::mem::swap(&mut self.tpl_report, &mut report);
        let min = string_of(&decimal_of(range.0));
        let max = string_of(&decimal_of(range.1));
        let list = string_of(&entries);
        let _ = report.set_var("min_dps", min.as_str());
        let _ = report.set_var("max_dps", max.as_str());
        let _ = report.set_var("report_list", list.as_str());
        let text = match report.compile() {
            Ok(text) => text,
            Err(_) => String::new(),
        };
        core::mem::swap(&mut self.tpl_report, &mut report);
        text
    }

    /// How many hundredths of the best result a result reaches.
    fn share(dps: u64, max: u64) -> (share: u64)
        requires
            dps <= max,
        ensures
            share == share_of(dps, max),
    {
        if max == 0 {
            0
        } else {
            let wide: u128 = (dps as u128 * 100 + (max / 2) as u128) / (max as u128);
            assert(wide <= 100) by (nonlinear_arith)
                requires
                    wide == (dps * 100 + max / 2) / (max as int),
                    0 <= dps <= max,
                    max > 0,
            ;
            wide as u64
        }
    }

    fn _get_report_name(&self, report: &str) -> (name: String)
        ensures
            name@ == report_name(report@),
    {
        let text = chars_of(report);
        match rfind(&text, '/') {
            Some(p) => {
                let part = slice(&text, p, text.len());
                string_of(&part)
            },
            None => String::from_str("unknown"),
        }
    }

    fn _get_report_file(&self, report: &str) -> (file: String)
        ensures
            file@ == report_file(self.directory(), report@),
    {
        let text = chars_of(report);
        let dir = chars_of(self.report_dir.as_str());
        if dir.len() < text.len() && dir.len() + 1 < text.len() {
            let part = slice(&text, dir.len() + 1, text.len());
            string_of(&part)
        } else {
            String::from_str("unkown")
        }
    }

    /// The results in the ranking, best first.
    pub fn finalize(&self) -> (entries: Vec<Report>)
        ensures
            entries@ == self@,
            entries@.len() <= self.capacity(),
            descending(entries@),
    {
        proof {
            use_type_invariant(self);
        }
        let mut entries: Vec<Report> = Vec::new();
        let mut i: usize = 0;
        while i < self.reports.len()
            invariant
                i <= self.reports@.len(),
                entries@ == self.reports@.take(i as int),
            decreases self.reports@.len() - i,
        {
            entries.push(self.reports[i].clone());
            proof {
                assert(entries@ =~= self.reports@.take(i + 1));
            }
            i += 1;
        }
        proof {
            assert(self.reports@.take(self.reports@.len() as int) =~= self.reports@);
        }
        entries
    }
}

} // verus!
