//! The open documents of a workspace, and what a language server answers about them.

use vstd::prelude::*;
use vstd::utf8::encode_utf8;

use crate::builder::{named_models, NamesModel};
use crate::caches::{FileCache, GlobalCache};
use crate::definitions::{
    key_place, lemma_key_place, optional_definition, reversed, value_at, with_pair, Definition,
    DefinitionIndex, DefinitionType, Range,
};
use crate::documents::{edited, update_file_contents, ContentChange};
use crate::lookup::{intervals_in, overlapping, Intervals};
use crate::namespace::{offset_of, range_of, SourceFile};
use crate::text::{begins_with, same_text, starts_with, texts};

verus! {

/// A range of a file.
#[derive(Debug, PartialEq)]
pub struct Location {
    pub path: String,
    pub range: Range,
}

/// What is shown for a position, and the range that it belongs to.
#[derive(Debug, PartialEq)]
pub struct Hover {
    pub contents: String,
    pub range: Range,
}

pub struct LocationModel {
    pub path: Seq<char>,
    pub range: Range,
}

impl View for Location {
    type V = LocationModel;

    open spec fn view(&self) -> LocationModel {
        LocationModel { path: self.path@, range: self.range }
    }
}

pub open spec fn location_models(locations: Seq<Location>) -> Seq<LocationModel> {
    locations.map_values(|l: Location| l@)
}

/// The first of the shortest among the first `n` ranges.
pub open spec fn shortest(ranges: Seq<(usize, usize, usize)>, n: nat) -> Option<
    (usize, usize, usize),
>
    decreases n,
{
    if n == 0 || n > ranges.len() {
        None
    } else {
        let last = ranges[n - 1];
        match shortest(ranges, (n - 1) as nat) {
            Some(best) if best.1 - best.0 <= last.1 - last.0 => Some(best),
            _ => Some(last),
        }
    }
}

/// The shortest range that covers an offset: it is the most informative.
pub open spec fn found_at(intervals: Intervals, offset: usize) -> Option<(usize, usize, usize)> {
    if offset < usize::MAX {
        let found = overlapping(intervals_in(intervals), offset, (offset + 1) as usize);
        shortest(found, found.len())
    } else {
        None
    }
}

fn find_at(intervals: &Intervals, offset: usize) -> (r: Option<(usize, usize, usize)>)
    ensures
        r == found_at(*intervals, offset),
        r is Some ==> r->Some_0.0 <= offset < r->Some_0.1,
{
    if offset == usize::MAX {
        return None;
    }
    let found = intervals.find(offset, offset + 1);
    proof {
        lemma_overlapping(intervals_in(*intervals), offset, (offset + 1) as usize);
    }
    let mut best: Option<(usize, usize, usize)> = None;
    let mut i: usize = 0;
    while i < found.len()
        invariant
            i <= found@.len(),
            forall|k: int|
                0 <= k < found@.len() ==> (#[trigger] found@[k]).0 <= offset < found@[k].1,
            best == shortest(found@, i as nat),
            best is Some ==> best->Some_0.0 <= offset < best->Some_0.1,
        decreases found@.len() - i,
    {
        let here: (usize, usize, usize) = found[i];
        assert(found@[i as int].0 <= offset < found@[i as int].1);
        let shorter: bool = match best {
            Some(b) => here.1 - here.0 < b.1 - b.0,
            None => true,
        };
        if shorter {
            best = Some(here);
        }
        i = i + 1;
    }
    best
}

proof fn lemma_overlapping(ranges: Seq<(usize, usize, usize)>, start: usize, stop: usize)
    ensures
        forall|k: int|
            0 <= k < overlapping(ranges, start, stop).len() ==> {
                &&& (#[trigger] overlapping(ranges, start, stop)[k]).0 < stop
                &&& overlapping(ranges, start, stop)[k].1 > start
            },
{
    let keep = |r: (usize, usize, usize)| r.0 < stop && r.1 > start;
    assert forall|k: int| 0 <= k < overlapping(ranges, start, stop).len() implies {
        &&& (#[trigger] overlapping(ranges, start, stop)[k]).0 < stop
        &&& overlapping(ranges, start, stop)[k].1 > start
    } by {
        ranges.lemma_filter_pred(keep, k);
    }
}

/// The range of a half-open range of offsets.
pub open spec fn exclusive_range(line_starts: Seq<usize>, start: usize, stop: usize) -> Range {
    range_of(line_starts, start, (stop - 1) as usize)
}

/// The range of a half-open range of offsets.
pub fn get_range_exclusive(start: usize, stop: usize, file: &SourceFile) -> (r: Range)
    requires
        stop > 0,
    ensures
        r == exclusive_range(file.line_starts@, start, stop),
{
    file.get_range(start, stop - 1)
}

/// What is shown for a position in a file.
pub open spec fn hover_at(cache: FileCache, line: usize, character: usize) -> Option<
    (Seq<char>, Range),
> {
    match offset_of(cache.file.line_starts@, line, character) {
        None => None,
        Some(offset) => match found_at(cache.hovers, offset) {
            Some(found) if found.2 < cache.hover_texts@.len() => Some(
                (
                    cache.hover_texts@[found.2 as int]@,
                    exclusive_range(cache.file.line_starts@, found.0, found.1),
                ),
            ),
            _ => None,
        },
    }
}

/// The code object that a position in a file refers to.
pub open spec fn reference_at(cache: FileCache, line: usize, character: usize) -> Option<Definition> {
    match offset_of(cache.file.line_starts@, line, character) {
        None => None,
        Some(offset) => match found_at(cache.references, offset) {
            Some(found) if found.2 < cache.reference_targets@.len() => Some(
                cache.reference_targets@[found.2 as int]@,
            ),
            _ => None,
        },
    }
}

impl FileCache {
    /// What is shown for a position: the shortest hover for the position is the most informative.
    pub fn hover(&self, line: u32, character: u32) -> (r: Option<Hover>)
        ensures
            match hover_at(*self, line as usize, character as usize) {
                Some((contents, range)) => {
                    &&& r is Some
                    &&& r->Some_0.contents@ == contents
                    &&& r->Some_0.range == range
                },
                None => r is None,
            },
    {
        match self.file.get_offset(line as usize, character as usize) {
            None => None,
            Some(offset) => match find_at(&self.hovers, offset) {
                None => None,
                Some((start, stop, no)) => {
                    if no < self.hover_texts.len() {
                        Some(
                            Hover {
                                contents: self.hover_texts[no].clone(),
                                range: get_range_exclusive(start, stop, &self.file),
                            },
                        )
                    } else {
                        None
                    }
                },
            },
        }
    }

    /// The code object that a position refers to.
    pub fn reference(&self, line: u32, character: u32) -> (r: Option<DefinitionIndex>)
        ensures
            match reference_at(*self, line as usize, character as usize) {
                Some(d) => r is Some && r->Some_0@ == d,
                None => r is None,
            },
    {
        match self.file.get_offset(line as usize, character as usize) {
            None => None,
            Some(offset) => match find_at(&self.references, offset) {
                None => None,
                Some((_, _, no)) => {
                    if no < self.reference_targets.len() {
                        Some(self.reference_targets[no].copy())
                    } else {
                        None
                    }
                },
            },
        }
    }
}

/// Stores information used by the language server for every opened file, by path.
#[derive(Debug)]
pub struct Files {
    pub caches: Vec<(String, FileCache)>,
    pub text_buffers: Vec<(String, String)>,
}

pub open spec fn cache_models(caches: Seq<(String, FileCache)>) -> Seq<(Seq<char>, FileCache)> {
    caches.map_values(|c: (String, FileCache)| (c.0@, c.1))
}

/// The encoded texts by path.
pub open spec fn buffer_models(buffers: Seq<(String, String)>) -> Seq<(Seq<char>, Seq<u8>)> {
    buffers.map_values(|b: (String, String)| (b.0@, encode_utf8(b.1@)))
}

/// A text after the first `n` changes, one after the other.
pub open spec fn changed(bytes: Seq<u8>, changes: Seq<ContentChange>, n: nat) -> Option<Seq<u8>>
    decreases n,
{
    if n == 0 || n > changes.len() {
        Some(bytes)
    } else {
        match changed(bytes, changes, (n - 1) as nat) {
            Some(before) => edited(
                before,
                changes[n - 1].range,
                encode_utf8(changes[n - 1].text@),
            ),
            None => None,
        }
    }
}

/// The caches with those of the first `n` files that were read put in.
pub open spec fn stored(
    caches: Seq<(Seq<char>, FileCache)>,
    files: Seq<FileCache>,
    n: nat,
) -> Seq<(Seq<char>, FileCache)>
    decreases n,
{
    if n == 0 || n > files.len() {
        caches
    } else {
        let before = stored(caches, files, (n - 1) as nat);
        let file = files[n - 1];
        if file.file.cache_no is Some {
            with_pair(before, file.file.path@, file)
        } else {
            before
        }
    }
}

impl Files {
    /// No files.
    pub fn new() -> (r: Files)
        ensures
            r.caches@.len() == 0,
            r.text_buffers@.len() == 0,
    {
        Files { caches: Vec::new(), text_buffers: Vec::new() }
    }

    fn buffer_place(&self, path: &str) -> (r: Option<usize>)
        ensures
            match key_place(buffer_models(self.text_buffers@), path@, 0) {
                Some(i) => r is Some && r->Some_0 == i && i < self.text_buffers@.len(),
                None => r is None,
            },
    {
        let mut i: usize = 0;
        while i < self.text_buffers.len()
            invariant
                i <= self.text_buffers@.len(),
                key_place(buffer_models(self.text_buffers@), path@, 0) == key_place(
                    buffer_models(self.text_buffers@),
                    path@,
                    i as nat,
                ),
            decreases self.text_buffers@.len() - i,
        {
            if same_text(self.text_buffers[i].0.as_str(), path) {
                return Some(i);
            }
            i = i + 1;
        }
        None
    }

    /// A document was opened with this text.
    pub fn did_open(&mut self, path: String, text: String)
        ensures
            buffer_models(final(self).text_buffers@) == with_pair(
                buffer_models(old(self).text_buffers@),
                path@,
                encode_utf8(text@),
            ),
            final(self).caches == old(self).caches,
    {
        let ghost before = buffer_models(self.text_buffers@);
        let ghost added = (path@, encode_utf8(text@));
        match self.buffer_place(path.as_str()) {
            Some(i) => {
                self.text_buffers.set(i, (path, text));
                assert(buffer_models(self.text_buffers@) =~= before.update(i as int, added));
            },
            None => {
                self.text_buffers.push((path, text));
                assert(buffer_models(self.text_buffers@) =~= before.push(added));
            },
        }
    }

    /// An open document was changed. The changes are applied in order. Says whether all of them
    /// could be applied; if not, the text stays.
    pub fn did_change(&mut self, path: &str, changes: &Vec<ContentChange>) -> (r: bool)
        ensures
            match value_at(buffer_models(old(self).text_buffers@), path@) {
                None => r && *final(self) == *old(self),
                Some(bytes) => match changed(bytes, changes@, changes@.len()) {
                    None => !r && *final(self) == *old(self),
                    Some(after) => {
                        &&& r
                        &&& final(self).caches == old(self).caches
                        &&& buffer_models(final(self).text_buffers@) == with_pair(
                            buffer_models(old(self).text_buffers@),
                            path@,
                            after,
                        )
                    },
                },
            },
    {
        let place: usize = match self.buffer_place(path) {
            Some(i) => i,
            None => {
                return true;
            },
        };
        let ghost before = buffer_models(self.text_buffers@);
        let ghost bytes = encode_utf8(self.text_buffers@[place as int].1@);
        let mut text = self.text_buffers[place].1.clone();
        let mut i: usize = 0;
        while i < changes.len()
            invariant
                i <= changes@.len(),
                *self == *old(self),
                changed(bytes, changes@, i as nat) == Some(encode_utf8(text@)),
                value_at(buffer_models(old(self).text_buffers@), path@) == Some(bytes),
            decreases changes@.len() - i,
        {
            match update_file_contents(&text, &changes[i]) {
                Some(after) => {
                    text = after;
                },
                None => {
                    proof {
                        lemma_changes_fail(bytes, changes@, (i + 1) as nat);
                    }
                    return false;
                },
            }
            i = i + 1;
        }
        let name = self.text_buffers[place].0.clone();
        let ghost added = (path@, encode_utf8(text@));
        assert(before[place as int].0 == self.text_buffers@[place as int].0@);
        proof {
            lemma_key_place(before, path@, 0);
        }
        self.text_buffers.set(place, (name, text));
        assert(buffer_models(self.text_buffers@) =~= before.update(place as int, added));
        true
    }

    /// An open document was saved with this text.
    pub fn did_save(&mut self, path: &str, text: String)
        ensures
            final(self).caches == old(self).caches,
            buffer_models(final(self).text_buffers@) == match value_at(
                buffer_models(old(self).text_buffers@),
                path@,
            ) {
                Some(_) => with_pair(
                    buffer_models(old(self).text_buffers@),
                    path@,
                    encode_utf8(text@),
                ),
                None => buffer_models(old(self).text_buffers@),
            },
    {
        let ghost before = buffer_models(self.text_buffers@);
        if let Some(i) = self.buffer_place(path) {
            let name = self.text_buffers[i].0.clone();
            let ghost added = (path@, encode_utf8(text@));
            assert(before[i as int].0 == self.text_buffers@[i as int].0@);
            proof {
                lemma_key_place(before, path@, 0);
            }
            self.text_buffers.set(i, (name, text));
            assert(buffer_models(self.text_buffers@) =~= before.update(i as int, added));
        }
    }

    /// What is looked up in the file at this path.
    pub fn cache(&self, path: &str) -> (r: Option<&FileCache>)
        ensures
            match value_at(cache_models(self.caches@), path@) {
                Some(cache) => r == Some(&cache),
                None => r is None,
            },
    {
        let mut i: usize = 0;
        while i < self.caches.len()
            invariant
                i <= self.caches@.len(),
                key_place(cache_models(self.caches@), path@, 0) == key_place(
                    cache_models(self.caches@),
                    path@,
                    i as nat,
                ),
            decreases self.caches@.len() - i,
        {
            if same_text(self.caches[i].0.as_str(), path) {
                return Some(&self.caches[i].1);
            }
            i = i + 1;
        }
        None
    }

    fn put_cache(&mut self, path: String, cache: FileCache)
        ensures
            cache_models(final(self).caches@) == with_pair(
                cache_models(old(self).caches@),
                path@,
                cache,
            ),
            final(self).text_buffers == old(self).text_buffers,
    {
        let ghost before = cache_models(self.caches@);
        let ghost added = (path@, cache);
        let mut i: usize = 0;
        while i < self.caches.len()
            invariant
                i <= self.caches@.len(),
                *self == *old(self),
                before == cache_models(self.caches@),
                key_place(before, path@, 0) == key_place(before, path@, i as nat),
                added == (path@, cache),
            decreases self.caches@.len() - i,
        {
            if same_text(self.caches[i].0.as_str(), path.as_str()) {
                self.caches.set(i, (path, cache));
                assert(cache_models(self.caches@) =~= before.update(i as int, added));
                return ;
            }
            i = i + 1;
        }
        self.caches.push((path, cache));
        assert(cache_models(self.caches@) =~= before.push(added));
    }

    /// Keeps what is looked up in those of the files that were read.
    pub fn store(&mut self, files: Vec<FileCache>)
        ensures
            cache_models(final(self).caches@) == stored(
                cache_models(old(self).caches@),
                files@,
                files@.len(),
            ),
            final(self).text_buffers == old(self).text_buffers,
    {
        let ghost all = files@;
        let ghost n = all.len();
        let ghost start = cache_models(self.caches@);
        let mut rest = reversed(files);
        let mut done: Ghost<nat> = Ghost(0);
        while rest.len() > 0
            invariant
                done@ + rest@.len() == n,
                all.len() == n,
                start == cache_models(old(self).caches@),
                forall|k: int| 0 <= k < rest@.len() ==> #[trigger] rest@[k] == all[n - 1 - k],
                cache_models(self.caches@) == stored(start, all, done@),
                self.text_buffers == old(self).text_buffers,
            decreases rest@.len(),
        {
            let ghost last = rest@.len() - 1;
            assert(rest@[last] == all[n - 1 - last]);
            if let Some(file) = rest.pop() {
                assert(file == all[done@ as int]);
                if file.file.cache_no.is_some() {
                    let path = file.file.path.clone();
                    self.put_cache(path, file);
                }
                proof {
                    done@ = done@ + 1;
                }
            }
        }
    }
}

proof fn lemma_changes_fail(bytes: Seq<u8>, changes: Seq<ContentChange>, n: nat)
    requires
        0 < n <= changes.len(),
        changed(bytes, changes, n) is None,
    ensures
        changed(bytes, changes, changes.len()) is None,
    decreases changes.len() - n,
{
    if n < changes.len() {
        lemma_changes_fail(bytes, changes, n + 1);
    }
}

/// Where a code object is defined.
pub open spec fn definition_location(definitions: Seq<(Definition, Range)>, d: Definition) -> Option<
    LocationModel,
> {
    match value_at(definitions, d) {
        Some(range) => Some(LocationModel { path: d.path, range }),
        None => None,
    }
}

/// A reference ends before the file begins.
#[derive(Clone, Copy, Debug, PartialEq, Eq, Structural)]
pub struct EmptyReference;

/// Those of the first `n` ranges of a file that refer to a code object.
pub open spec fn locations_in(
    cache: FileCache,
    path: Seq<char>,
    ranges: Seq<(usize, usize, usize)>,
    d: Definition,
    n: nat,
) -> Result<Seq<LocationModel>, EmptyReference>
    decreases n,
{
    if n == 0 || n > ranges.len() {
        Ok(Seq::empty())
    } else {
        let (start, stop, no) = ranges[n - 1];
        match locations_in(cache, path, ranges, d, (n - 1) as nat) {
            Err(e) => Err(e),
            Ok(before) => if no < cache.reference_targets@.len()
                && cache.reference_targets@[no as int]@ == d {
                if stop == 0 {
                    Err(EmptyReference)
                } else {
                    let range = exclusive_range(cache.file.line_starts@, start, stop);
                    Ok(before.push(LocationModel { path, range }))
                }
            } else {
                Ok(before)
            },
        }
    }
}

/// The ranges in the first `n` files that refer to a code object.
pub open spec fn all_locations(caches: Seq<(Seq<char>, FileCache)>, d: Definition, n: nat) -> Result<
    Seq<LocationModel>,
    EmptyReference,
>
    decreases n,
{
    if n == 0 || n > caches.len() {
        Ok(Seq::empty())
    } else {
        let (path, cache) = caches[n - 1];
        let ranges = intervals_in(cache.references);
        match (
            all_locations(caches, d, (n - 1) as nat),
            locations_in(cache, path, ranges, d, ranges.len()),
        ) {
            (Ok(before), Ok(here)) => Ok(before + here),
            _ => Err(EmptyReference),
        }
    }
}

proof fn lemma_locations_fail(
    cache: FileCache,
    path: Seq<char>,
    ranges: Seq<(usize, usize, usize)>,
    d: Definition,
    n: nat,
)
    requires
        0 < n <= ranges.len(),
        locations_in(cache, path, ranges, d, n) is Err,
    ensures
        locations_in(cache, path, ranges, d, ranges.len()) is Err,
    decreases ranges.len() - n,
{
    if n < ranges.len() {
        lemma_locations_fail(cache, path, ranges, d, n + 1);
    }
}

proof fn lemma_all_locations_fail(caches: Seq<(Seq<char>, FileCache)>, d: Definition, n: nat)
    requires
        0 < n <= caches.len(),
        all_locations(caches, d, n) is Err,
    ensures
        all_locations(caches, d, caches.len()) is Err,
    decreases caches.len() - n,
{
    if n < caches.len() {
        lemma_all_locations_fail(caches, d, n + 1);
    }
}

/// The first `n` locations without `left_out`.
pub open spec fn without(locations: Seq<LocationModel>, left_out: LocationModel, n: nat) -> Seq<
    LocationModel,
>
    decreases n,
{
    if n == 0 || n > locations.len() {
        Seq::empty()
    } else {
        let before = without(locations, left_out, (n - 1) as nat);
        if locations[n - 1] == left_out {
            before
        } else {
            before.push(locations[n - 1])
        }
    }
}

/// Where a code object is referred to, with the place where it is defined or without.
pub open spec fn references_to(
    caches: Seq<(Seq<char>, FileCache)>,
    definitions: Seq<(Definition, Range)>,
    d: Definition,
    include_declaration: bool,
) -> Result<Seq<LocationModel>, EmptyReference> {
    match all_locations(caches, d, caches.len()) {
        Err(_) => Err(EmptyReference),
        Ok(all) => if include_declaration {
            Ok(all)
        } else {
            match definition_location(definitions, d) {
                Some(left_out) => Ok(without(all, left_out, all.len())),
                None => Ok(all),
            }
        },
    }
}

/// Finds where a code object is defined.
pub fn goto_definition(global: &GlobalCache, reference: &DefinitionIndex) -> (r: Option<Location>)
    ensures
        match definition_location(global.definitions.pairs(), reference@) {
            Some(location) => r is Some && r->Some_0@ == location,
            None => r is None,
        },
{
    match global.definitions.get(reference) {
        Some(range) => Some(Location { path: reference.def_path.clone(), range: *range }),
        None => None,
    }
}

fn add_locations(cache: &FileCache, path: &String, reference: &DefinitionIndex, locations: &mut Vec<
    Location,
>) -> (r: Result<(), EmptyReference>)
    ensures
        match locations_in(
            *cache,
            path@,
            intervals_in(cache.references),
            reference@,
            intervals_in(cache.references).len(),
        ) {
            Ok(here) => {
                &&& r is Ok
                &&& location_models(final(locations)@) == location_models(old(locations)@) + here
            },
            Err(_) => r is Err,
        },
{
    let ghost start = location_models(locations@);
    let ghost mut mine: Seq<LocationModel> = Seq::empty();
    let ranges = cache.references.all();
    assert(location_models(locations@) =~= start + mine);
    let mut i: usize = 0;
    while i < ranges.len()
        invariant
            i <= ranges@.len(),
            ranges@ == intervals_in(cache.references),
            locations_in(*cache, path@, ranges@, reference@, i as nat) == Ok::<
                Seq<LocationModel>,
                EmptyReference,
            >(mine),
            location_models(locations@) == start + mine,
        decreases ranges@.len() - i,
    {
        let (from, to, no): (usize, usize, usize) = ranges[i];
        if no < cache.reference_targets.len() && cache.reference_targets[no].same(reference) {
            if to == 0 {
                proof {
                    lemma_locations_fail(*cache, path@, ranges@, reference@, (i + 1) as nat);
                }
                return Err(EmptyReference);
            }
            let ghost before = location_models(locations@);
            let location = Location {
                path: path.clone(),
                range: get_range_exclusive(from, to, &cache.file),
            };
            let ghost added = location@;
            locations.push(location);
            assert(location_models(locations@) =~= before.push(added));
            assert(before.push(added) =~= start + mine.push(added));
            proof {
                mine = mine.push(added);
            }
        }
        i = i + 1;
    }
    Ok(())
}

impl Files {
    /// Finds where a code object is referred to, with the place where it is defined or without.
    /// Nothing comes back where there is no such place.
    pub fn references(
        &self,
        global: &GlobalCache,
        reference: &DefinitionIndex,
        include_declaration: bool,
    ) -> (r: Result<Option<Vec<Location>>, EmptyReference>)
        ensures
            match references_to(
                cache_models(self.caches@),
                global.definitions.pairs(),
                reference@,
                include_declaration,
            ) {
                Ok(found) => {
                    &&& r is Ok
                    &&& found.len() == 0 ==> r->Ok_0 is None
                    &&& found.len() > 0 ==> r->Ok_0 is Some && location_models(r->Ok_0->Some_0@)
                        == found
                },
                Err(_) => r is Err,
            },
    {
        let ghost caches = cache_models(self.caches@);
        let mut locations: Vec<Location> = Vec::new();
        assert(location_models(locations@) =~= Seq::<LocationModel>::empty());
        let mut i: usize = 0;
        while i < self.caches.len()
            invariant
                i <= self.caches@.len(),
                caches == cache_models(self.caches@),
                all_locations(caches, reference@, i as nat) == Ok::<
                    Seq<LocationModel>,
                    EmptyReference,
                >(location_models(locations@)),
            decreases self.caches@.len() - i,
        {
            assert(caches[i as int] == (self.caches@[i as int].0@, self.caches@[i as int].1));
            match add_locations(&self.caches[i].1, &self.caches[i].0, reference, &mut locations) {
                Ok(()) => {},
                Err(e) => {
                    proof {
                        lemma_all_locations_fail(caches, reference@, (i + 1) as nat);
                    }
                    return Err(e);
                },
            }
            i = i + 1;
        }
        if !include_declaration {
            if let Some(declared) = goto_definition(global, reference) {
                let ghost all = location_models(locations@);
                let mut kept: Vec<Location> = Vec::new();
                assert(location_models(kept@) =~= Seq::<LocationModel>::empty());
                let mut k: usize = 0;
                while k < locations.len()
                    invariant
                        k <= locations@.len(),
                        all == location_models(locations@),
                        location_models(kept@) == without(all, declared@, k as nat),
                    decreases locations@.len() - k,
                {
                    let location = &locations[k];
                    assert(all[k as int] == location@);
                    if location.range != declared.range || !same_text(
                        location.path.as_str(),
                        declared.path.as_str(),
                    ) {
                        let ghost before = location_models(kept@);
                        let copy = Location {
                            path: location.path.clone(),
                            range: location.range,
                        };
                        let ghost added = copy@;
                        kept.push(copy);
                        assert(location_models(kept@) =~= before.push(added));
                    }
                    k = k + 1;
                }
                locations = kept;
            }
        }
        if locations.len() == 0 {
            Ok(None)
        } else {
            Ok(Some(locations))
        }
    }
}

/// A command offered above a range of a file.
#[derive(Debug, PartialEq)]
pub struct CodeLens {
    pub range: Range,
    pub title: String,
    pub command: String,
    pub arguments: Vec<String>,
}

pub struct LensModel {
    pub range: Range,
    pub title: Seq<char>,
    pub command: Seq<char>,
    pub arguments: Seq<Seq<char>>,
}

impl View for CodeLens {
    type V = LensModel;

    open spec fn view(&self) -> LensModel {
        LensModel {
            range: self.range,
            title: self.title@,
            command: self.command@,
            arguments: texts(self.arguments@),
        }
    }
}

pub open spec fn lens_models(lenses: Seq<CodeLens>) -> Seq<LensModel> {
    lenses.map_values(|l: CodeLens| l@)
}

/// A function was named whose definition is not known.
#[derive(Clone, Copy, Debug, PartialEq, Eq, Structural)]
pub struct UnknownDefinition;

/// Whether a named code object is a test: a function whose name begins with `test_`.
pub open spec fn is_test(name: Seq<char>, object: Option<Definition>) -> bool {
    match object {
        Some(d) => d.def is Function && begins_with(name, "test_"@),
        None => false,
    }
}

/// The commands offered for a test: to run it, and to debug it.
pub open spec fn test_lenses(range: Range, file_path: Seq<char>, name: Seq<char>) -> Seq<LensModel> {
    let arguments = seq![file_path, name];
    seq![
        LensModel { range, title: "run test"@, command: "sol.test.file"@, arguments },
        LensModel { range, title: "debug test"@, command: "sol.debug.file"@, arguments },
    ]
}

/// The commands offered for the tests among the first `n` code objects, where each is defined.
pub open spec fn lenses(
    definitions: Seq<(Definition, Range)>,
    objects: NamesModel,
    file_path: Seq<char>,
    n: nat,
) -> Result<Seq<LensModel>, UnknownDefinition>
    decreases n,
{
    if n == 0 || n > objects.len() {
        Ok(Seq::empty())
    } else {
        let (name, object) = objects[n - 1];
        match lenses(definitions, objects, file_path, (n - 1) as nat) {
            Err(e) => Err(e),
            Ok(before) => if !is_test(name, object) {
                Ok(before)
            } else {
                match value_at(definitions, object->Some_0) {
                    Some(range) => Ok(before + test_lenses(range, file_path, name)),
                    None => Err(UnknownDefinition),
                }
            },
        }
    }
}

fn make_lens(range: Range, title: &str, command: &str, file_path: &str, name: &String) -> (r: CodeLens)
    ensures
        r@ == (LensModel {
            range,
            title: title@,
            command: command@,
            arguments: seq![file_path@, name@],
        }),
{
    let mut arguments: Vec<String> = Vec::new();
    arguments.push(file_path.to_string());
    arguments.push(name.clone());
    assert(texts(arguments@) =~= seq![file_path@, name@]);
    CodeLens { range, title: title.to_string(), command: command.to_string(), arguments }
}

impl FileCache {
    /// The commands offered in the file: each test can be run and debugged.
    pub fn code_lens(&self, global: &GlobalCache, file_path: &str) -> (r: Result<
        Vec<CodeLens>,
        UnknownDefinition,
    >)
        ensures
            match lenses(
                global.definitions.pairs(),
                named_models(self.top_level_code_objects@),
                file_path@,
                self.top_level_code_objects@.len(),
            ) {
                Ok(found) => r is Ok && lens_models(r->Ok_0@) == found,
                Err(e) => r == Err::<Vec<CodeLens>, UnknownDefinition>(e),
            },
    {
        let ghost definitions = global.definitions.pairs();
        let ghost objects = named_models(self.top_level_code_objects@);
        let mut found: Vec<CodeLens> = Vec::new();
        assert(lens_models(found@) =~= Seq::<LensModel>::empty());
        let mut i: usize = 0;
        while i < self.top_level_code_objects.len()
            invariant
                i <= self.top_level_code_objects@.len(),
                objects == named_models(self.top_level_code_objects@),
                definitions == global.definitions.pairs(),
                lenses(definitions, objects, file_path@, i as nat) == Ok::<
                    Seq<LensModel>,
                    UnknownDefinition,
                >(lens_models(found@)),
            decreases self.top_level_code_objects@.len() - i,
        {
            let named = &self.top_level_code_objects[i];
            assert(objects[i as int] == (named.0@, optional_definition(named.1)));
            if let Some(index) = &named.1 {
                let is_function: bool = match index.def_type {
                    DefinitionType::Function(_) => true,
                    _ => false,
                };
                if is_function && starts_with(named.0.as_str(), "test_") {
                    let range: Range = match global.definitions.get(index) {
                        Some(range) => *range,
                        None => {
                            proof {
                                lemma_lenses_fail(
                                    definitions,
                                    objects,
                                    file_path@,
                                    (i + 1) as nat,
                                );
                            }
                            return Err(UnknownDefinition);
                        },
                    };
                    let ghost before = lens_models(found@);
                    let run = make_lens(range, "run test", "sol.test.file", file_path, &named.0);
                    let debug = make_lens(
                        range,
                        "debug test",
                        "sol.debug.file",
                        file_path,
                        &named.0,
                    );
                    let ghost added = seq![run@, debug@];
                    found.push(run);
                    found.push(debug);
                    assert(lens_models(found@) =~= before + added);
                    assert(added =~= test_lenses(range, file_path@, named.0@));
                }
            }
            i = i + 1;
        }
        Ok(found)
    }
}

proof fn lemma_lenses_fail(
    definitions: Seq<(Definition, Range)>,
    objects: NamesModel,
    file_path: Seq<char>,
    n: nat,
)
    requires
        0 < n <= objects.len(),
        lenses(definitions, objects, file_path, n) is Err,
    ensures
        lenses(definitions, objects, file_path, objects.len()) == lenses(
            definitions,
            objects,
            file_path,
            n,
        ),
    decreases objects.len() - n,
{
    if n < objects.len() {
        lemma_lenses_fail(definitions, objects, file_path, n + 1);
    }
}

} // verus!
