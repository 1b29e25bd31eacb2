//! The compiler's messages on a file, and what is kept of a compiled namespace.

use vstd::prelude::*;

use crate::builder::Builder;
use crate::caches::{caches_namespace, lookups, FileCache, GlobalCache};
use crate::definitions::{with_pairs, Range};
use crate::namespace::{range_of, CompilerMessage, Level, Loc, Namespace, Note, SourceFile};
use crate::queries::{cache_models, stored, Files, Location};

verus! {

#[derive(Clone, Copy, Debug, PartialEq, Eq, Structural)]
pub enum Severity {
    Information,
    Warning,
    Error,
}

/// A further message that belongs to a diagnostic.
#[derive(Debug, PartialEq)]
pub struct RelatedInformation {
    pub message: String,
    pub location: Location,
}

/// A message on a range of a file.
#[derive(Debug, PartialEq)]
pub struct Diagnostic {
    pub range: Range,
    pub message: String,
    pub severity: Severity,
    pub related_information: Option<Vec<RelatedInformation>>,
}

pub struct RelatedModel {
    pub message: Seq<char>,
    pub path: Seq<char>,
    pub range: Range,
}

pub struct DiagnosticModel {
    pub range: Range,
    pub message: Seq<char>,
    pub severity: Severity,
    pub related_information: Option<Seq<RelatedModel>>,
}

impl View for RelatedInformation {
    type V = RelatedModel;

    open spec fn view(&self) -> RelatedModel {
        RelatedModel {
            message: self.message@,
            path: self.location.path@,
            range: self.location.range,
        }
    }
}

impl View for Diagnostic {
    type V = DiagnosticModel;

    open spec fn view(&self) -> DiagnosticModel {
        DiagnosticModel {
            range: self.range,
            message: self.message@,
            severity: self.severity,
            related_information: match self.related_information {
                Some(notes) => Some(related_models(notes@)),
                None => None,
            },
        }
    }
}

pub open spec fn related_models(notes: Seq<RelatedInformation>) -> Seq<RelatedModel> {
    notes.map_values(|n: RelatedInformation| n@)
}

pub open spec fn diagnostic_models(diagnostics: Seq<Diagnostic>) -> Seq<DiagnosticModel> {
    diagnostics.map_values(|d: Diagnostic| d@)
}

/// The first of the files from `i` on that was read: it is the one that was asked for, the others
/// are imported.
pub open spec fn top_file(files: Seq<SourceFile>, i: nat) -> Option<nat>
    decreases (if i < files.len() { files.len() - i } else { 0 }),
{
    if i >= files.len() {
        None
    } else if files[i as int].cache_no is Some {
        Some(i)
    } else {
        top_file(files, i + 1)
    }
}

/// The range of a location in a file.
pub open spec fn location_range(file: SourceFile, loc: Loc) -> Option<Range> {
    match loc {
        Loc::File(_, start, end) => Some(range_of(file.line_starts@, start, end)),
        _ => None,
    }
}

pub open spec fn severity_of(level: Level) -> Option<Severity> {
    match level {
        Level::Info => Some(Severity::Information),
        Level::Warning => Some(Severity::Warning),
        Level::Error => Some(Severity::Error),
        Level::Debug => None,
    }
}

/// The first `n` notes. A note is placed in its own file, by the lines of the file `top`.
pub open spec fn related(ns: Namespace, top: SourceFile, notes: Seq<Note>, n: nat) -> Option<
    Seq<RelatedModel>,
>
    decreases n,
{
    if n == 0 || n > notes.len() {
        Some(Seq::empty())
    } else {
        let note = notes[n - 1];
        match (related(ns, top, notes, (n - 1) as nat), note.loc, location_range(top, note.loc)) {
            (Some(before), Loc::File(file_no, _, _), Some(range)) if file_no < ns.files@.len() => Some(
                before.push(
                    RelatedModel {
                        message: note.message@,
                        path: ns.files@[file_no as int].path@,
                        range,
                    },
                ),
            ),
            _ => None,
        }
    }
}

/// What is told of a message: nothing of one on an imported file or of one for debugging.
pub open spec fn diagnostic_of(ns: Namespace, m: CompilerMessage) -> Option<Option<DiagnosticModel>> {
    match (top_file(ns.files@, 0), m.loc) {
        (Some(top), Loc::File(file_no, start, end)) => if file_no != top {
            Some(None)
        } else {
            let file = ns.files@[top as int];
            match severity_of(m.level) {
                None => Some(None),
                Some(severity) => match related(ns, file, m.notes@, m.notes@.len()) {
                    None => None,
                    Some(notes) => Some(
                        Some(
                            DiagnosticModel {
                                range: range_of(file.line_starts@, start, end),
                                message: m.message@,
                                severity,
                                related_information: if m.notes@.len() == 0 {
                                    None
                                } else {
                                    Some(notes)
                                },
                            },
                        ),
                    ),
                },
            }
        },
        _ => None,
    }
}

/// What is told of the first `n` messages; nothing at all where one has no place.
pub open spec fn diagnostics_of(ns: Namespace, n: nat) -> Option<Seq<DiagnosticModel>>
    decreases n,
{
    if n == 0 || n > ns.diagnostics@.len() {
        Some(Seq::empty())
    } else {
        match (diagnostics_of(ns, (n - 1) as nat), diagnostic_of(ns, ns.diagnostics@[n - 1])) {
            (Some(before), Some(Some(d))) => Some(before.push(d)),
            (Some(before), Some(None)) => Some(before),
            _ => None,
        }
    }
}

fn find_top_file(ns: &Namespace) -> (r: Option<usize>)
    ensures
        match top_file(ns.files@, 0) {
            Some(i) => r is Some && r->Some_0 == i && i < ns.files@.len(),
            None => r is None,
        },
{
    let mut i: usize = 0;
    while i < ns.files.len()
        invariant
            i <= ns.files@.len(),
            top_file(ns.files@, 0) == top_file(ns.files@, i as nat),
        decreases ns.files@.len() - i,
    {
        if ns.files[i].cache_no.is_some() {
            return Some(i);
        }
        i = i + 1;
    }
    None
}

fn relate(ns: &Namespace, top: &SourceFile, notes: &Vec<Note>) -> (r: Option<Vec<RelatedInformation>>)
    ensures
        match related(*ns, *top, notes@, notes@.len()) {
            Some(found) => r is Some && related_models(r->Some_0@) == found,
            None => r is None,
        },
{
    let mut found: Vec<RelatedInformation> = Vec::new();
    assert(related_models(found@) =~= Seq::<RelatedModel>::empty());
    let mut i: usize = 0;
    while i < notes.len()
        invariant
            i <= notes@.len(),
            related(*ns, *top, notes@, i as nat) == Some(related_models(found@)),
        decreases notes@.len() - i,
    {
        let note = &notes[i];
        let placed: Option<(usize, usize, usize)> = match note.loc {
            Loc::File(file_no, start, end) => {
                if file_no < ns.files.len() {
                    Some((file_no, start, end))
                } else {
                    None
                }
            },
            _ => None,
        };
        match placed {
            Some((file_no, start, end)) => {
                let ghost before = related_models(found@);
                let information = RelatedInformation {
                    message: note.message.clone(),
                    location: Location {
                        path: ns.files[file_no].path.clone(),
                        range: top.get_range(start, end),
                    },
                };
                let ghost added = information@;
                found.push(information);
                assert(related_models(found@) =~= before.push(added));
            },
            None => {
                proof {
                    lemma_related_fails(*ns, *top, notes@, (i + 1) as nat);
                }
                return None;
            },
        }
        i = i + 1;
    }
    Some(found)
}

proof fn lemma_related_fails(ns: Namespace, top: SourceFile, notes: Seq<Note>, n: nat)
    requires
        0 < n <= notes.len(),
        related(ns, top, notes, n) is None,
    ensures
        related(ns, top, notes, notes.len()) is None,
    decreases notes.len() - n,
{
    if n < notes.len() {
        lemma_related_fails(ns, top, notes, n + 1);
    }
}

proof fn lemma_diagnostics_fail(ns: Namespace, n: nat)
    requires
        0 < n <= ns.diagnostics@.len(),
        diagnostics_of(ns, n) is None,
    ensures
        diagnostics_of(ns, ns.diagnostics@.len()) is None,
    decreases ns.diagnostics@.len() - n,
{
    if n < ns.diagnostics@.len() {
        lemma_diagnostics_fail(ns, n + 1);
    }
}

pub open spec fn optional_diagnostic(d: Option<Diagnostic>) -> Option<DiagnosticModel> {
    match d {
        Some(diagnostic) => Some(diagnostic@),
        None => None,
    }
}

fn diagnose(ns: &Namespace, m: &CompilerMessage) -> (r: Option<Option<Diagnostic>>)
    ensures
        match diagnostic_of(*ns, *m) {
            Some(d) => r is Some && optional_diagnostic(r->Some_0) == d,
            None => r is None,
        },
{
    let top: usize = match find_top_file(ns) {
        Some(top) => top,
        None => {
            return None;
        },
    };
    match m.loc {
        Loc::File(file_no, start, end) => {
            if file_no != top {
                return Some(None);
            }
            let severity = match m.level {
                Level::Info => Severity::Information,
                Level::Warning => Severity::Warning,
                Level::Error => Severity::Error,
                Level::Debug => {
                    return Some(None);
                },
            };
            let file = &ns.files[top];
            match relate(ns, file, &m.notes) {
                None => None,
                Some(notes) => Some(
                    Some(
                        Diagnostic {
                            range: file.get_range(start, end),
                            message: m.message.clone(),
                            severity,
                            related_information: if m.notes.len() == 0 {
                                None
                            } else {
                                Some(notes)
                            },
                        },
                    ),
                ),
            }
        },
        _ => None,
    }
}

/// What is told of the compiler's messages on the file that was asked for. Nothing at all comes back
/// where a message has no place in a file.
pub fn diagnostics(ns: &Namespace) -> (r: Option<Vec<Diagnostic>>)
    ensures
        match diagnostics_of(*ns, ns.diagnostics@.len()) {
            Some(found) => r is Some && diagnostic_models(r->Some_0@) == found,
            None => r is None,
        },
{
    let mut found: Vec<Diagnostic> = Vec::new();
    assert(diagnostic_models(found@) =~= Seq::<DiagnosticModel>::empty());
    let mut i: usize = 0;
    while i < ns.diagnostics.len()
        invariant
            i <= ns.diagnostics@.len(),
            diagnostics_of(*ns, i as nat) == Some(diagnostic_models(found@)),
        decreases ns.diagnostics@.len() - i,
    {
        match diagnose(ns, &ns.diagnostics[i]) {
            Some(Some(d)) => {
                let ghost before = diagnostic_models(found@);
                let ghost added = d@;
                found.push(d);
                assert(diagnostic_models(found@) =~= before.push(added));
            },
            Some(None) => {},
            None => {
                proof {
                    lemma_diagnostics_fail(*ns, (i + 1) as nat);
                }
                return None;
            },
        }
        i = i + 1;
    }
    Some(found)
}

/// One cache after another has been added to it.
pub open spec fn extended(before: GlobalCache, added: GlobalCache, after: GlobalCache) -> bool {
    &&& after.definitions.pairs() == with_pairs(
        before.definitions.pairs(),
        added.definitions.pairs(),
        added.definitions.pairs().len(),
    )
    &&& after.types.pairs() == with_pairs(
        before.types.pairs(),
        added.types.pairs(),
        added.types.pairs().len(),
    )
    &&& after.declarations.pairs() == with_pairs(
        before.declarations.pairs(),
        added.declarations.pairs(),
        added.declarations.pairs().len(),
    )
    &&& after.implementations.pairs() == with_pairs(
        before.implementations.pairs(),
        added.implementations.pairs(),
        added.implementations.pairs().len(),
    )
    &&& after.properties.pairs() == with_pairs(
        before.properties.pairs(),
        added.properties.pairs(),
        added.properties.pairs().len(),
    )
}

impl Files {
    /// Keeps what is looked up in a namespace that was compiled, and returns what is told of the
    /// compiler's messages. Nothing is kept where the namespace refers to what is not there.
    pub fn parse_file(&mut self, global: &mut GlobalCache, ns: &Namespace) -> (r: Option<
        Vec<Diagnostic>,
    >)
        ensures
            final(self).text_buffers == old(self).text_buffers,
            match (diagnostics_of(*ns, ns.diagnostics@.len()), lookups(*ns)) {
                (Some(found), Some(b)) => {
                    &&& r is Some
                    &&& diagnostic_models(r->Some_0@) == found
                    &&& exists|files: Seq<FileCache>, added: GlobalCache|
                        #![trigger caches_namespace(files, added, *ns, b)]
                        {
                            &&& caches_namespace(files, added, *ns, b)
                            &&& cache_models(final(self).caches@) == stored(
                                cache_models(old(self).caches@),
                                files,
                                files.len(),
                            )
                            &&& extended(*old(global), added, *final(global))
                        }
                },
                _ => r is None && *final(self) == *old(self) && *final(global) == *old(global),
            },
    {
        let found = match diagnostics(ns) {
            Some(found) => found,
            None => {
                return None;
            },
        };
        let (files, added) = match Builder::new(ns).build() {
            Some(caches) => caches,
            None => {
                return None;
            },
        };
        let ghost kept = files@;
        let ghost extra = added;
        let ghost before = *global;
        self.store(files);
        global.extend(added);
        proof {
            assert(caches_namespace(kept, extra, *ns, lookups(*ns)->Some_0));
            assert(extended(before, extra, *global));
        }
        Some(found)
    }
}

} // verus!
