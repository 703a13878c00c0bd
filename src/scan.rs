//! The per-file worker and the sequential form of a whole run: eligible
//! files only, each under its resolved rule set, merged into one table.

use vstd::prelude::*;
use vstd::utf8::encode_utf8;
use crate::extract::{accepted, extract};
use crate::pattern::opt_view;
use crate::rank::{is_ranking, rank, ranked_view};
use crate::rules::{config_fault, resolved, CompiledConfig, CompiledRules, ConfigError, ConfigModel, Configuration, RulesModel};
use crate::table::FreqTable;

verus! {

/// The number of lines from which rule set `m` accepts token `t`.
pub open spec fn occurrences(lines: Seq<Seq<char>>, m: RulesModel, t: Seq<char>) -> nat
    decreases lines.len(),
{
    if lines.len() == 0 {
        0
    } else {
        occurrences(lines.drop_last(), m, t) + if accepted(m, lines.last()) == Some(t) { 1nat } else { 0 }
    }
}

/// The number of lines from which rule set `m` accepts some token.
pub open spec fn accepted_lines(lines: Seq<Seq<char>>, m: RulesModel) -> nat
    decreases lines.len(),
{
    if lines.len() == 0 {
        0
    } else {
        accepted_lines(lines.drop_last(), m) + if accepted(m, lines.last()) is Some { 1nat } else { 0 }
    }
}

/// The view of a list of lines.
pub open spec fn lines_view(lines: Seq<String>) -> Seq<Seq<char>> {
    lines.map_values(|l: String| l@)
}

/// Counts, into `table`, the token that `rules` accepts from `line`.
pub fn record_line(table: &mut FreqTable, line: &str, rules: &CompiledRules)
    requires
        old(table).wf(),
        rules.wf(),
        old(table).sum() < u64::MAX,
    ensures
        final(table).wf(),
        final(table).sum() == old(table).sum() + if accepted(rules@, line@) is Some { 1nat } else { 0 },
        forall|t: Seq<char>| #[trigger] final(table).count(t) == old(table).count(t) + if accepted(rules@, line@) == Some(t) { 1nat } else { 0 },
{
    match extract(line, rules) {
        Some(token) => {
            table.add(token, 1);
        },
        None => {},
    }
}

/// The local frequency table of one file's lines under one rule set.
pub fn tally(lines: &Vec<String>, rules: &CompiledRules) -> (r: FreqTable)
    requires
        rules.wf(),
    ensures
        r.wf(),
        r.sum() == accepted_lines(lines_view(lines@), rules@),
        r.sum() <= lines@.len(),
        forall|t: Seq<char>| #[trigger] r.count(t) == occurrences(lines_view(lines@), rules@, t),
{
    let ghost lv = lines_view(lines@);
    let mut table = FreqTable::new();
    let mut i: usize = 0;
    while i < lines.len()
        invariant
            i <= lines.len(),
            rules.wf(),
            lv == lines_view(lines@),
            table.wf(),
            table.sum() == accepted_lines(lv.subrange(0, i as int), rules@),
            table.sum() <= i,
            forall|t: Seq<char>| #[trigger] table.count(t) == occurrences(lv.subrange(0, i as int), rules@, t),
        decreases lines.len() - i,
    {
        proof {
            assert(lv.subrange(0, i + 1).drop_last() =~= lv.subrange(0, i as int));
            assert(lv[i as int] == lines@[i as int]@);
            assert(usize::MAX <= u64::MAX);
        }
        record_line(&mut table, lines[i].as_str(), rules);
        i = i + 1;
    }
    assert(lv.subrange(0, lines@.len() as int) =~= lv);
    table
}

/// The bytes of ".txt".
pub open spec fn txt_suffix() -> Seq<u8> {
    seq![46u8, 116u8, 120u8, 116u8]
}

/// The bytes of ".csv".
pub open spec fn csv_suffix() -> Seq<u8> {
    seq![46u8, 99u8, 115u8, 118u8]
}

/// Whether a base file name has the extension `txt` or `csv`: it ends in
/// ".txt" or ".csv" after a non-empty stem.
pub open spec fn eligible(name: Seq<char>) -> bool {
    let b = encode_utf8(name);
    &&& b.len() > 4
    &&& (b.subrange(b.len() - 4, b.len() as int) == txt_suffix() || b.subrange(b.len() - 4, b.len() as int) == csv_suffix())
}

/// Whether a file with this base name is processed.
pub fn is_eligible(name: &str) -> (r: bool)
    ensures
        r == eligible(name@),
{
    let b: &[u8] = name.as_bytes();
    let n: usize = b.len();
    if n <= 4 {
        return false;
    }
    let txt = b[n - 4] == 46u8 && b[n - 3] == 116u8 && b[n - 2] == 120u8 && b[n - 1] == 116u8;
    let csv = b[n - 4] == 46u8 && b[n - 3] == 99u8 && b[n - 2] == 115u8 && b[n - 1] == 118u8;
    proof {
        let s = b@.subrange(n - 4, n as int);
        assert(txt <==> s =~= txt_suffix());
        assert(csv <==> s =~= csv_suffix());
    }
    txt || csv
}

/// One input file: its base name and its lines.
#[derive(Clone, Debug)]
pub struct SourceFile {
    pub name: String,
    pub lines: Vec<String>,
}

impl View for SourceFile {
    type V = (Seq<char>, Seq<Seq<char>>);

    open spec fn view(&self) -> (Seq<char>, Seq<Seq<char>>) {
        (self.name@, lines_view(self.lines@))
    }
}

/// What one file adds to the count of `t`: nothing when it is not eligible.
pub open spec fn file_count(cfg: ConfigModel, f: (Seq<char>, Seq<Seq<char>>), t: Seq<char>) -> nat {
    if eligible(f.0) {
        occurrences(f.1, resolved(cfg, f.0), t)
    } else {
        0
    }
}

/// The global count of `t` over a list of files.
pub open spec fn global_count(cfg: ConfigModel, fs: Seq<(Seq<char>, Seq<Seq<char>>)>, t: Seq<char>) -> nat
    decreases fs.len(),
{
    if fs.len() == 0 {
        0
    } else {
        global_count(cfg, fs.drop_last(), t) + file_count(cfg, fs.last(), t)
    }
}

/// The number of accepted lines of one file.
pub open spec fn file_accepted(cfg: ConfigModel, f: (Seq<char>, Seq<Seq<char>>)) -> nat {
    if eligible(f.0) {
        accepted_lines(f.1, resolved(cfg, f.0))
    } else {
        0
    }
}

/// The number of accepted lines over a list of files.
pub open spec fn global_accepted(cfg: ConfigModel, fs: Seq<(Seq<char>, Seq<Seq<char>>)>) -> nat
    decreases fs.len(),
{
    if fs.len() == 0 {
        0
    } else {
        global_accepted(cfg, fs.drop_last()) + file_accepted(cfg, fs.last())
    }
}

/// The number of lines over a list of files.
pub open spec fn line_total(fs: Seq<(Seq<char>, Seq<Seq<char>>)>) -> nat
    decreases fs.len(),
{
    if fs.len() == 0 {
        0
    } else {
        line_total(fs.drop_last()) + fs.last().1.len()
    }
}

/// The view of a list of files.
pub open spec fn files_view(files: Seq<SourceFile>) -> Seq<(Seq<char>, Seq<Seq<char>>)> {
    files.map_values(|f: SourceFile| f@)
}

proof fn lemma_accepted_le_lines(lines: Seq<Seq<char>>, m: RulesModel)
    ensures
        accepted_lines(lines, m) <= lines.len(),
    decreases lines.len(),
{
    if lines.len() > 0 {
        lemma_accepted_le_lines(lines.drop_last(), m);
    }
}

proof fn lemma_line_total_prefix(fs: Seq<(Seq<char>, Seq<Seq<char>>)>, k: int)
    requires
        0 <= k <= fs.len(),
    ensures
        line_total(fs.subrange(0, k)) <= line_total(fs),
    decreases fs.len() - k,
{
    if k < fs.len() {
        lemma_line_total_prefix(fs, k + 1);
        assert(fs.subrange(0, k + 1).drop_last() =~= fs.subrange(0, k));
    } else {
        assert(fs.subrange(0, k) =~= fs);
    }
}

proof fn lemma_global_accepted_le(cfg: ConfigModel, fs: Seq<(Seq<char>, Seq<Seq<char>>)>)
    ensures
        global_accepted(cfg, fs) <= line_total(fs),
    decreases fs.len(),
{
    if fs.len() > 0 {
        lemma_global_accepted_le(cfg, fs.drop_last());
        if eligible(fs.last().0) {
            lemma_accepted_le_lines(fs.last().1, resolved(cfg, fs.last().0));
        }
    }
}

/// A whole run done in sequence: each eligible file is tallied under the
/// rule set resolved for its name, and the tables are merged.
pub fn scan(config: &CompiledConfig, files: &Vec<SourceFile>) -> (r: FreqTable)
    requires
        config.wf(),
        line_total(files_view(files@)) <= u64::MAX,
    ensures
        r.wf(),
        r.sum() == global_accepted(config@, files_view(files@)),
        forall|t: Seq<char>| #[trigger] r.count(t) == global_count(config@, files_view(files@), t),
{
    let ghost fv = files_view(files@);
    let mut global = FreqTable::new();
    let mut i: usize = 0;
    while i < files.len()
        invariant
            i <= files.len(),
            config.wf(),
            fv == files_view(files@),
            line_total(fv) <= u64::MAX,
            global.wf(),
            global.sum() == global_accepted(config@, fv.subrange(0, i as int)),
            forall|t: Seq<char>| #[trigger] global.count(t) == global_count(config@, fv.subrange(0, i as int), t),
        decreases files.len() - i,
    {
        let ghost pre = fv.subrange(0, i as int);
        let ghost next = fv.subrange(0, i + 1);
        proof {
            assert(next.drop_last() =~= pre);
            assert(next.last() == files@[i as int]@);
            lemma_global_accepted_le(config@, next);
            lemma_line_total_prefix(fv, i + 1);
        }
        let file = &files[i];
        if is_eligible(file.name.as_str()) {
            let rules = config.resolve(file.name.as_str());
            let local = tally(&file.lines, rules);
            global.merge_from(&local);
        }
        i = i + 1;
    }
    assert(fv.subrange(0, files@.len() as int) =~= fv);
    global
}

/// A whole run: compiles the configuration, then scans the files and
/// ranks the global table. A configuration fault stops the run before
/// any file is looked at.
pub fn run(config: &Configuration, files: &Vec<SourceFile>) -> (r: Result<(FreqTable, Vec<(String, u64)>), ConfigError>)
    requires
        line_total(files_view(files@)) <= u64::MAX,
    ensures
        match r {
            Ok((table, ranked)) => {
                &&& config_fault(config@) is None
                &&& table.wf()
                &&& forall|t: Seq<char>| #[trigger] table.count(t) == global_count(config@, files_view(files@), t)
                &&& is_ranking(table@, ranked_view(ranked@))
            },
            Err(e) => config_fault(config@) == Some(e.view()),
        },
{
    let compiled = match config.compile() {
        Ok(c) => c,
        Err(e) => {
            return Err(e);
        },
    };
    let table = scan(&compiled, files);
    let ranked = rank(&table);
    Ok((table, ranked))
}

} // verus!
