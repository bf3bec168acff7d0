//! The scanner: processes discovered filesystem entries one at a time,
//! recording every path, matching readable file contents against the
//! signature store, accumulating findings in the risk registry, and emitting
//! one trace line per entry into the log sink. The traversal itself and all
//! I/O stay with the caller, which hands each entry in as plain values.
use vstd::prelude::*;
use crate::bytes::{copy_bytes, views_of};
use crate::kvmap::{has_key, map_insert, lemma_map_insert_other};
use crate::logfmt::{
    dir_line_of, file_line_of, finding_line_of, total_line_of, unreadable_line_of,
    format_dir_line, format_file_line, format_finding_line, format_total_line,
    format_unreadable_line,
};
use crate::registry::{RiskEntry, RiskRegistry};
use crate::sig::{match_model, SignatureStore};
use crate::sink::LogSink;

verus! {

/// One discovered filesystem entry, with the time its discovery and read
/// took: a directory, or a file with its leading bytes (`None` when the file
/// could not be read).
pub enum ScanEntry {
    Directory { path: Vec<u8>, elapsed_ms: u64 },
    File { path: Vec<u8>, contents: Option<Vec<u8>>, elapsed_ms: u64 },
}

/// Aggregate wall-clock duration of a whole scan.
#[derive(PartialEq, Eq, Structural, Debug, Clone, Copy)]
pub struct ScanStats {
    pub elapsed_ms: u64,
}

/// The path of an entry.
pub open spec fn entry_path(e: ScanEntry) -> Seq<u8> {
    match e {
        ScanEntry::Directory { path, .. } => path@,
        ScanEntry::File { path, .. } => path@,
    }
}

/// `e` is a file entry.
pub open spec fn is_file_entry(e: ScanEntry) -> bool {
    e matches ScanEntry::File { .. }
}

/// `e` is a file entry whose contents could be read.
pub open spec fn is_readable_file(e: ScanEntry) -> bool {
    e matches ScanEntry::File { contents: Some(_), .. }
}

/// The contents of a readable file entry.
pub open spec fn entry_contents(e: ScanEntry) -> Seq<u8>
    recommends
        is_readable_file(e),
{
    match e {
        ScanEntry::File { contents: Some(c), .. } => c@,
        _ => Seq::empty(),
    }
}

/// The paths of the file entries of `es`, in order.
pub open spec fn file_paths(es: Seq<ScanEntry>) -> Seq<Seq<u8>>
    decreases es.len(),
{
    if es.len() == 0 {
        Seq::empty()
    } else if is_file_entry(es.last()) {
        file_paths(es.drop_last()).push(entry_path(es.last()))
    } else {
        file_paths(es.drop_last())
    }
}

/// The paths of the directory entries of `es`, in order.
pub open spec fn dir_paths(es: Seq<ScanEntry>) -> Seq<Seq<u8>>
    decreases es.len(),
{
    if es.len() == 0 {
        Seq::empty()
    } else if !is_file_entry(es.last()) {
        dir_paths(es.drop_last()).push(entry_path(es.last()))
    } else {
        dir_paths(es.drop_last())
    }
}

/// What one entry does to the registry: a readable file whose contents match
/// a signature records that signature under its path; everything else leaves
/// the registry alone.
pub open spec fn reg_step(
    sigs: Seq<(Seq<u8>, Seq<u8>)>,
    reg: Seq<(Seq<u8>, Seq<u8>)>,
    e: ScanEntry,
) -> Seq<(Seq<u8>, Seq<u8>)> {
    if is_readable_file(e) {
        match match_model(sigs, entry_contents(e)) {
            Some(id) => map_insert(reg, entry_path(e), id),
            None => reg,
        }
    } else {
        reg
    }
}

/// The registry after processing `es` in order, starting from `reg`.
pub open spec fn reg_after(
    sigs: Seq<(Seq<u8>, Seq<u8>)>,
    reg: Seq<(Seq<u8>, Seq<u8>)>,
    es: Seq<ScanEntry>,
) -> Seq<(Seq<u8>, Seq<u8>)>
    decreases es.len(),
{
    if es.len() == 0 {
        reg
    } else {
        reg_step(sigs, reg_after(sigs, reg, es.drop_last()), es.last())
    }
}

/// The one trace line an entry produces: its path with the time spent on it,
/// or the failure line for a file that could not be read.
pub open spec fn scan_line_of(e: ScanEntry) -> Seq<u8> {
    match e {
        ScanEntry::Directory { path, elapsed_ms } => dir_line_of(path@, elapsed_ms as nat),
        ScanEntry::File { path, contents: Some(_), elapsed_ms } => file_line_of(
            path@,
            elapsed_ms as nat,
        ),
        ScanEntry::File { path, contents: None, .. } => unreadable_line_of(path@),
    }
}

/// The trace lines of `es`, one per entry, in order.
pub open spec fn scan_lines(es: Seq<ScanEntry>) -> Seq<Seq<u8>> {
    es.map(|i: int, e: ScanEntry| scan_line_of(e))
}

/// The findings-log lines of a registry snapshot, one per finding, in order.
pub open spec fn findings_lines(m: Seq<(Seq<u8>, Seq<u8>)>) -> Seq<Seq<u8>> {
    m.map(|i: int, kv: (Seq<u8>, Seq<u8>)| finding_line_of(kv.0, kv.1))
}

/// The scanner state: the immutable signature store, the findings so far,
/// the paths found so far, and the buffered trace log.
pub struct Scanner {
    store: SignatureStore,
    registry: RiskRegistry,
    found_files: Vec<Vec<u8>>,
    found_dirs: Vec<Vec<u8>>,
    sink: LogSink,
}

impl Scanner {
    /// The loaded signatures.
    pub closed spec fn sigs(&self) -> Seq<(Seq<u8>, Seq<u8>)> {
        self.store@
    }

    /// The recorded findings.
    pub closed spec fn reg(&self) -> Seq<(Seq<u8>, Seq<u8>)> {
        self.registry@
    }

    /// The paths of the files visited so far.
    pub closed spec fn files(&self) -> Seq<Seq<u8>> {
        views_of(self.found_files@)
    }

    /// The paths of the directories visited so far.
    pub closed spec fn dirs(&self) -> Seq<Seq<u8>> {
        views_of(self.found_dirs@)
    }

    /// The trace lines buffered so far.
    pub closed spec fn log(&self) -> Seq<Seq<u8>> {
        self.sink@
    }

    /// At most one finding per path.
    pub closed spec fn wf(&self) -> bool {
        self.registry.wf()
    }

    /// A scanner over `store` with nothing visited yet.
    pub fn new(store: SignatureStore) -> (r: Scanner)
        ensures
            r.sigs() == store@,
            r.reg() == Seq::<(Seq<u8>, Seq<u8>)>::empty(),
            r.files() == Seq::<Seq<u8>>::empty(),
            r.dirs() == Seq::<Seq<u8>>::empty(),
            r.log() == Seq::<Seq<u8>>::empty(),
            r.wf(),
    {
        let r = Scanner {
            store,
            registry: RiskRegistry::new(),
            found_files: Vec::new(),
            found_dirs: Vec::new(),
            sink: LogSink::new(),
        };
        assert(r.files() =~= Seq::<Seq<u8>>::empty());
        assert(r.dirs() =~= Seq::<Seq<u8>>::empty());
        r
    }

    /// Records one visited directory and emits its trace line.
    pub fn visit_dir(&mut self, path: &Vec<u8>, elapsed_ms: u64)
        ensures
            final(self).sigs() == old(self).sigs(),
            final(self).reg() == old(self).reg(),
            final(self).files() == old(self).files(),
            final(self).dirs() == old(self).dirs().push(path@),
            final(self).log() == old(self).log().push(dir_line_of(path@, elapsed_ms as nat)),
            old(self).wf() ==> final(self).wf(),
    {
        let ghost dirs0 = self.dirs();
        self.found_dirs.push(copy_bytes(path));
        assert(self.dirs() =~= dirs0.push(path@));
        let line = format_dir_line(path, elapsed_ms);
        self.sink.emit(line);
    }

    /// Processes one visited file: records its path, and if its contents
    /// could be read, matches them against the store, recording the first
    /// matching signature's identifier under the path. Emits the file's trace
    /// line, or the failure line when the read failed — a file that cannot be
    /// read is logged and skipped, never fatal. Returns the matched
    /// identifier, if any.
    pub fn visit_file(&mut self, path: &Vec<u8>, contents: Option<&Vec<u8>>, elapsed_ms: u64) -> (r:
        Option<Vec<u8>>)
        ensures
            final(self).sigs() == old(self).sigs(),
            final(self).dirs() == old(self).dirs(),
            final(self).files() == old(self).files().push(path@),
            contents matches Some(c) ==> {
                &&& final(self).log() == old(self).log().push(
                    file_line_of(path@, elapsed_ms as nat),
                )
                &&& ((r is Some) <==> (match_model(old(self).sigs(), c@) is Some))
                &&& (r matches Some(id) ==> Some(id@) == match_model(old(self).sigs(), c@)
                    && final(self).reg() == map_insert(old(self).reg(), path@, id@))
                &&& (r is None ==> final(self).reg() == old(self).reg())
            },
            contents is None ==> r is None && final(self).reg() == old(self).reg()
                && final(self).log() == old(self).log().push(unreadable_line_of(path@)),
            old(self).wf() ==> final(self).wf(),
    {
        let ghost files0 = self.files();
        self.found_files.push(copy_bytes(path));
        assert(self.files() =~= files0.push(path@));
        match contents {
            Some(c) => {
                let line = format_file_line(path, elapsed_ms);
                let matched = self.store.match_prefix(c);
                let r = match matched {
                    Some(id) => {
                        let id_out = copy_bytes(&id);
                        self.registry.record(copy_bytes(path), id);
                        Some(id_out)
                    },
                    None => None,
                };
                self.sink.emit(line);
                r
            },
            None => {
                let line = format_unreadable_line(path);
                self.sink.emit(line);
                None
            },
        }
    }

    /// Processes a whole list of discovered entries in order, then emits the
    /// final total-runtime line and returns the scan's aggregate timing. The
    /// result of the scan is a function of the signature store and the
    /// entries alone: every file path is recorded exactly once and in order,
    /// the registry ends as the per-entry matching dictates, and the log
    /// holds exactly one line per entry, in order, plus the final line.
    pub fn run(&mut self, entries: &Vec<ScanEntry>, total_ms: u64) -> (r: ScanStats)
        ensures
            final(self).sigs() == old(self).sigs(),
            final(self).files() == old(self).files() + file_paths(entries@),
            final(self).dirs() == old(self).dirs() + dir_paths(entries@),
            final(self).reg() == reg_after(old(self).sigs(), old(self).reg(), entries@),
            final(self).log() == old(self).log() + scan_lines(entries@).push(
                total_line_of(total_ms as nat),
            ),
            r.elapsed_ms == total_ms,
            old(self).wf() ==> final(self).wf(),
    {
        let ghost es = entries@;
        let ghost sigs0 = self.sigs();
        let ghost reg0 = self.reg();
        let ghost files0 = self.files();
        let ghost dirs0 = self.dirs();
        let ghost log0 = self.log();
        let mut i: usize = 0;
        proof {
            assert(file_paths(es.take(0)) =~= Seq::<Seq<u8>>::empty());
            assert(dir_paths(es.take(0)) =~= Seq::<Seq<u8>>::empty());
            assert(files0 + file_paths(es.take(0)) =~= files0);
            assert(dirs0 + dir_paths(es.take(0)) =~= dirs0);
            assert(log0 + scan_lines(es.take(0)) =~= log0);
        }
        while i < entries.len()
            invariant
                0 <= i <= es.len(),
                es == entries@,
                self.sigs() == sigs0,
                self.files() == files0 + file_paths(es.take(i as int)),
                self.dirs() == dirs0 + dir_paths(es.take(i as int)),
                self.reg() == reg_after(sigs0, reg0, es.take(i as int)),
                self.log() == log0 + scan_lines(es.take(i as int)),
                old(self).wf() ==> self.wf(),
            decreases es.len() - i,
        {
            let ghost pre = es.take(i as int);
            proof {
                assert(es.take(i + 1 as int).drop_last() =~= pre);
                assert(es.take(i + 1 as int).last() == es[i as int]);
            }
            match &entries[i] {
                ScanEntry::Directory { path, elapsed_ms } => {
                    self.visit_dir(path, *elapsed_ms);
                    proof {
                        assert(file_paths(es.take(i + 1 as int)) =~= file_paths(pre));
                        assert(self.dirs() =~= dirs0 + dir_paths(es.take(i + 1 as int)));
                        assert(self.log() =~= log0 + scan_lines(es.take(i + 1 as int)));
                    }
                },
                ScanEntry::File { path, contents, elapsed_ms } => {
                    match contents {
                        Some(c) => {
                            self.visit_file(path, Some(c), *elapsed_ms);
                        },
                        None => {
                            self.visit_file(path, None, *elapsed_ms);
                        },
                    }
                    proof {
                        assert(dir_paths(es.take(i + 1 as int)) =~= dir_paths(pre));
                        assert(self.files() =~= files0 + file_paths(es.take(i + 1 as int)));
                        assert(self.log() =~= log0 + scan_lines(es.take(i + 1 as int)));
                    }
                },
            }
            i = i + 1;
        }
        proof {
            assert(es.take(es.len() as int) =~= es);
        }
        let line = format_total_line(total_ms);
        self.sink.emit(line);
        assert(self.log() =~= log0 + scan_lines(es).push(total_line_of(total_ms as nat)));
        ScanStats { elapsed_ms: total_ms }
    }

    /// The paths of the files visited so far, in visit order.
    pub fn get_files(&self) -> (r: &Vec<Vec<u8>>)
        ensures
            views_of(r@) == self.files(),
    {
        &self.found_files
    }

    /// The paths of the directories visited so far, in visit order.
    pub fn get_dirs(&self) -> (r: &Vec<Vec<u8>>)
        ensures
            views_of(r@) == self.dirs(),
    {
        &self.found_dirs
    }

    /// The findings recorded so far.
    pub fn get_risk_files(&self) -> (r: &RiskRegistry)
        ensures
            r@ == self.reg(),
    {
        &self.registry
    }

    /// The signature store the scanner matches against.
    pub fn get_database(&self) -> (r: &SignatureStore)
        ensures
            r@ == self.sigs(),
    {
        &self.store
    }

    /// Removes and returns the trace lines buffered so far, oldest first;
    /// the caller forwards them to the log writer.
    pub fn drain_log(&mut self) -> (r: Vec<Vec<u8>>)
        ensures
            views_of(r@) == old(self).log(),
            final(self).log() == Seq::<Seq<u8>>::empty(),
            final(self).sigs() == old(self).sigs(),
            final(self).reg() == old(self).reg(),
            final(self).files() == old(self).files(),
            final(self).dirs() == old(self).dirs(),
            old(self).wf() ==> final(self).wf(),
    {
        self.sink.drain()
    }
}

/// `e1` and `e2` are the same discovery, timing aside: the same kind and
/// path, and for files the same read outcome and contents.
pub open spec fn same_shape(e1: ScanEntry, e2: ScanEntry) -> bool {
    match (e1, e2) {
        (ScanEntry::Directory { path: p1, .. }, ScanEntry::Directory { path: p2, .. }) => p1@
            == p2@,
        (
            ScanEntry::File { path: p1, contents: c1, .. },
            ScanEntry::File { path: p2, contents: c2, .. },
        ) => p1@ == p2@ && (match (c1, c2) {
            (Option::None, Option::None) => true,
            (Option::Some(a), Option::Some(b)) => a@ == b@,
            _ => false,
        }),
        _ => false,
    }
}

/// How many file entries `es` holds.
pub open spec fn n_file_entries(es: Seq<ScanEntry>) -> nat
    decreases es.len(),
{
    if es.len() == 0 {
        0
    } else if is_file_entry(es.last()) {
        n_file_entries(es.drop_last()) + 1
    } else {
        n_file_entries(es.drop_last())
    }
}

/// The file entries of `es` that could be read, in order.
pub open spec fn readable_files_of(es: Seq<ScanEntry>) -> Seq<ScanEntry> {
    es.filter(|e: ScanEntry| is_readable_file(e))
}

/// Scanning the same discoveries again gives the same results: two entry
/// lists that agree on everything but timing produce the same registry and
/// the same file and directory lists.
pub proof fn lemma_scan_idempotent(
    sigs: Seq<(Seq<u8>, Seq<u8>)>,
    reg0: Seq<(Seq<u8>, Seq<u8>)>,
    es1: Seq<ScanEntry>,
    es2: Seq<ScanEntry>,
)
    requires
        es1.len() == es2.len(),
        forall|i: int| 0 <= i < es1.len() ==> same_shape(#[trigger] es1[i], #[trigger] es2[i]),
    ensures
        reg_after(sigs, reg0, es1) == reg_after(sigs, reg0, es2),
        file_paths(es1) == file_paths(es2),
        dir_paths(es1) == dir_paths(es2),
    decreases es1.len(),
{
    if es1.len() > 0 {
        assert forall|i: int|
            0 <= i < es1.drop_last().len() implies same_shape(
            #[trigger] es1.drop_last()[i],
            #[trigger] es2.drop_last()[i],
        ) by {
            assert(es1.drop_last()[i] == es1[i]);
            assert(es2.drop_last()[i] == es2[i]);
        }
        lemma_scan_idempotent(sigs, reg0, es1.drop_last(), es2.drop_last());
        assert(same_shape(es1[es1.len() - 1], es2[es2.len() - 1]));
        assert(file_paths(es1) =~= file_paths(es2));
        assert(dir_paths(es1) =~= dir_paths(es2));
    }
}

/// Every path in the found-files list is the path of some file entry.
proof fn lemma_file_paths_membership(es: Seq<ScanEntry>, k: int)
    requires
        0 <= k < file_paths(es).len(),
    ensures
        exists|i: int|
            0 <= i < es.len() && is_file_entry(#[trigger] es[i]) && entry_path(es[i])
                == file_paths(es)[k],
    decreases es.len(),
{
    if es.len() > 0 {
        if is_file_entry(es.last()) && k == file_paths(es).len() - 1 {
            assert(es[es.len() - 1] == es.last());
            assert(is_file_entry(es[es.len() - 1]) && entry_path(es[es.len() - 1])
                == file_paths(es)[k]);
        } else {
            lemma_file_paths_membership(es.drop_last(), k);
            let i = choose|i: int|
                0 <= i < es.drop_last().len() && is_file_entry(#[trigger] es.drop_last()[i])
                    && entry_path(es.drop_last()[i]) == file_paths(es.drop_last())[k];
            assert(es.drop_last()[i] == es[i]);
            assert(is_file_entry(es[i]) && entry_path(es[i]) == file_paths(es)[k]);
        }
    }
}

/// Exactly one found-files entry per discovered file: `M` file entries yield
/// `M` recorded paths, and when the discovered file paths are distinct no
/// path is lost and none is duplicated.
pub proof fn lemma_files_exact(es: Seq<ScanEntry>)
    requires
        forall|i: int, j: int|
            0 <= i < j < es.len() && is_file_entry(#[trigger] es[i]) && is_file_entry(
                #[trigger] es[j],
            ) ==> entry_path(es[i]) != entry_path(es[j]),
    ensures
        file_paths(es).len() == n_file_entries(es),
        forall|p: int, q: int|
            0 <= p < q < file_paths(es).len() ==> file_paths(es)[p] != file_paths(es)[q],
    decreases es.len(),
{
    if es.len() > 0 {
        assert forall|i: int, j: int|
            0 <= i < j < es.drop_last().len() && is_file_entry(#[trigger] es.drop_last()[i])
                && is_file_entry(#[trigger] es.drop_last()[j]) implies entry_path(
            es.drop_last()[i],
        ) != entry_path(es.drop_last()[j]) by {
            assert(es.drop_last()[i] == es[i]);
            assert(es.drop_last()[j] == es[j]);
        }
        lemma_files_exact(es.drop_last());
        if is_file_entry(es.last()) {
            let fp = file_paths(es);
            let prev = file_paths(es.drop_last());
            assert forall|p: int, q: int| 0 <= p < q < fp.len() implies fp[p] != fp[q] by {
                if q == fp.len() - 1 {
                    lemma_file_paths_membership(es.drop_last(), p);
                    let i = choose|i: int|
                        0 <= i < es.drop_last().len() && is_file_entry(
                            #[trigger] es.drop_last()[i],
                        ) && entry_path(es.drop_last()[i]) == prev[p];
                    assert(es.drop_last()[i] == es[i]);
                    assert(es[es.len() - 1] == es.last());
                    assert(entry_path(es[i]) != entry_path(es[es.len() - 1]));
                }
            }
        }
    }
}

/// A file that cannot be read never reaches the registry: the scan's
/// findings are exactly those of the readable file entries alone, and the
/// trace line of an unreadable file is the logged failure line.
pub proof fn lemma_unreadable_skipped(
    sigs: Seq<(Seq<u8>, Seq<u8>)>,
    reg0: Seq<(Seq<u8>, Seq<u8>)>,
    es: Seq<ScanEntry>,
)
    ensures
        reg_after(sigs, reg0, es) == reg_after(sigs, reg0, readable_files_of(es)),
        forall|i: int|
            0 <= i < es.len() && is_file_entry(#[trigger] es[i]) && !is_readable_file(es[i])
                ==> scan_lines(es)[i] == unreadable_line_of(entry_path(es[i])),
    decreases es.len(),
{
    reveal(Seq::filter);
    if es.len() > 0 {
        lemma_unreadable_skipped(sigs, reg0, es.drop_last());
        if is_readable_file(es.last()) {
            assert(readable_files_of(es) == readable_files_of(es.drop_last()).push(es.last()));
            assert(readable_files_of(es).drop_last() =~= readable_files_of(es.drop_last()));
            assert(reg_after(sigs, reg0, readable_files_of(es)) == reg_step(
                sigs,
                reg_after(sigs, reg0, readable_files_of(es.drop_last())),
                es.last(),
            ));
        }
    }
}

/// A path none of whose readable discoveries matches any signature is never
/// recorded in the registry.
pub proof fn lemma_unmatched_never_recorded(
    sigs: Seq<(Seq<u8>, Seq<u8>)>,
    reg0: Seq<(Seq<u8>, Seq<u8>)>,
    es: Seq<ScanEntry>,
    p: Seq<u8>,
)
    requires
        !has_key(reg0, p),
        forall|i: int|
            0 <= i < es.len() && is_readable_file(#[trigger] es[i]) && entry_path(es[i]) == p
                ==> match_model(sigs, entry_contents(es[i])) is None,
    ensures
        !has_key(reg_after(sigs, reg0, es), p),
    decreases es.len(),
{
    if es.len() > 0 {
        assert forall|i: int|
            0 <= i < es.drop_last().len() && is_readable_file(#[trigger] es.drop_last()[i])
                && entry_path(es.drop_last()[i]) == p implies match_model(
            sigs,
            entry_contents(es.drop_last()[i]),
        ) is None by {
            assert(es.drop_last()[i] == es[i]);
        }
        lemma_unmatched_never_recorded(sigs, reg0, es.drop_last(), p);
        let last = es.last();
        let prev = reg_after(sigs, reg0, es.drop_last());
        if is_readable_file(last) && match_model(sigs, entry_contents(last)) is Some {
            assert(es[es.len() - 1] == last);
            assert(entry_path(last) != p);
            lemma_map_insert_other(
                prev,
                entry_path(last),
                match_model(sigs, entry_contents(last))->0,
                p,
            );
        }
    }
}

/// The findings log: one line per recorded finding, in recorded order.
pub fn render_findings(findings: &Vec<RiskEntry>) -> (r: Vec<Vec<u8>>)
    ensures
        views_of(r@) == findings_lines(crate::registry::entry_views(findings@)),
{
    let ghost m = crate::registry::entry_views(findings@);
    let mut out: Vec<Vec<u8>> = Vec::new();
    let mut i: usize = 0;
    while i < findings.len()
        invariant
            0 <= i <= findings@.len(),
            m == crate::registry::entry_views(findings@),
            out@.len() == i,
            views_of(out@) == findings_lines(m).take(i as int),
        decreases findings@.len() - i,
    {
        let e = &findings[i];
        out.push(format_finding_line(&e.path, &e.id));
        assert(views_of(out@) =~= findings_lines(m).take(i + 1 as int));
        i = i + 1;
    }
    assert(findings_lines(m).take(m.len() as int) =~= findings_lines(m));
    out
}

} // verus!
