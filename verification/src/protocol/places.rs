//! What is made of the places a server answers with.

use vstd::prelude::*;
use vstd::string::*;
use vstd::utf8::*;

use crate::error::{Answer, LspError};
use crate::paths;
use crate::payload::{LocationModel, LspLocation};
use crate::protocol::answers;
use crate::protocol::positions;
use crate::protocol::uris;
use crate::protocol::wire;
use crate::protocol::wire::{PlacesModel, PlacesSaid, Spot, SpotModel};
use crate::text;

verus! {

broadcast use vstd::string::group_string_axioms;

// ---------------------------------------------------------------------------------------------
// What places come to
// ---------------------------------------------------------------------------------------------

/// The lines an answer names, in whichever shape it names them.
pub open spec fn spots_in(places: PlacesModel) -> Seq<SpotModel> {
    match places {
        PlacesModel::One(spot) => seq![spot],
        PlacesModel::Several(spots) => spots,
        PlacesModel::Links(spots) => spots,
    }
}

/// The path of the file a line is in, where it is in one.
pub open spec fn path_of(spot: SpotModel) -> Option<Seq<char>> {
    uris::path_named(encode_utf8(spot.uri))
}

/// Where a path to the same place is among paths, if there is one.
pub open spec fn known_path(known: Seq<Seq<char>>, path: Seq<char>, from: int) -> Option<int>
    decreases known.len() - from,
{
    if from >= known.len() {
        None
    } else if paths::components(known[from]) == paths::components(path) {
        Some(from)
    } else {
        known_path(known, path, from + 1)
    }
}

/// The files lines are in, each once, in the order they are first named.
pub open spec fn files_named(spots: Seq<SpotModel>) -> Seq<Seq<char>>
    decreases spots.len(),
{
    if spots.len() == 0 {
        Seq::empty()
    } else {
        let before = files_named(spots.drop_last());
        match path_of(spots.last()) {
            None => before,
            Some(path) => if known_path(before, path, 0) is Some {
                before
            } else {
                before.push(path)
            },
        }
    }
}

/// What a line reads, off the text of its file.
pub open spec fn line_read(text: Option<String>, line: u32) -> Option<Seq<u8>> {
    match text {
        Some(text) => positions::line_in(encode_utf8(text@), line as nat),
        None => None,
    }
}

/// A line counted from zero as it is counted from one.
pub open spec fn counted_from_one(line: u32) -> usize {
    if line as usize == usize::MAX {
        usize::MAX
    } else {
        (line + 1) as usize
    }
}

/// One line as a caller opens it, with what it reads off the texts of the files.
pub open spec fn location_of(
    spot: SpotModel,
    path: Seq<char>,
    repo_root: Seq<char>,
    files: Seq<Seq<char>>,
    texts: Seq<Option<String>>,
) -> LocationModel {
    LocationModel {
        file_path: paths::named_in_repo(path, repo_root),
        line_number: counted_from_one(spot.line),
        line_text: match known_path(files, path, 0) {
            Some(at) => line_read(texts[at], spot.line),
            None => None,
        },
    }
}

/// Lines as a caller opens them, those left out that are in no file.
pub open spec fn located(
    spots: Seq<SpotModel>,
    repo_root: Seq<char>,
    files: Seq<Seq<char>>,
    texts: Seq<Option<String>>,
) -> Seq<LocationModel>
    decreases spots.len(),
{
    if spots.len() == 0 {
        Seq::empty()
    } else {
        let before = located(spots.drop_last(), repo_root, files, texts);
        match path_of(spots.last()) {
            None => before,
            Some(path) => before.push(
                location_of(spots.last(), path, repo_root, files, texts),
            ),
        }
    }
}

/// Whether a file may be read as this.
pub open spec fn may_give<F: Fn(&str) -> Option<String>>(
    text_of: F,
    path: Seq<char>,
    text: Option<String>,
) -> bool {
    exists|asked: &str| asked@ == path && call_ensures(text_of, (asked,), text)
}

/// Whether texts are what files may be read as, each read once.
pub open spec fn may_be_given<F: Fn(&str) -> Option<String>>(
    text_of: F,
    files: Seq<Seq<char>>,
    texts: Seq<Option<String>>,
) -> bool {
    &&& texts.len() == files.len()
    &&& forall|i: int|
        0 <= i < files.len() ==> may_give(text_of, files[i], #[trigger] texts[i])
}

/// Whether these may be the lines an answer names, as a caller opens them.
pub open spec fn may_locate<F: Fn(&str) -> Option<String>>(
    text_of: F,
    spots: Seq<SpotModel>,
    repo_root: Seq<char>,
    locations: Seq<LocationModel>,
) -> bool {
    exists|texts: Seq<Option<String>>| #[trigger]
        may_be_given(text_of, files_named(spots), texts) && locations == located(
            spots,
            repo_root,
            files_named(spots),
            texts,
        )
}

// ---------------------------------------------------------------------------------------------
// Reading places
// ---------------------------------------------------------------------------------------------

/// Where a path to the same place is among paths - see [`known_path`].
fn find_path(known: &[String], path: &str) -> (found: Option<usize>)
    ensures
        match found {
            Some(at) => known_path(wire::views(known@), path@, 0) == Some(at as int) && at
                < known@.len(),
            None => known_path(wire::views(known@), path@, 0) is None,
        },
{
    let ghost all = wire::views(known@);
    let mut at: usize = 0;
    while at < known.len()
        invariant
            all == wire::views(known@),
            at <= known@.len(),
            known_path(all, path@, 0) == known_path(all, path@, at as int),
        decreases known@.len() - at,
    {
        assert(all[at as int] == known@[at as int]@);
        if paths::same_path(known[at].as_str(), path) {
            return Some(at);
        }
        at += 1;
    }
    None
}

/// The files lines are in, each once, in the order they are first named - see [`files_named`].
pub fn files_of(spots: &[Spot]) -> (files: Vec<String>)
    ensures
        wire::views(files@) == files_named(wire::views(spots@)),
{
    let ghost all = wire::views(spots@);
    let mut files: Vec<String> = Vec::new();
    let mut at: usize = 0;
    assert(all.take(0).len() == 0);
    assert(wire::views(files@) =~= Seq::<Seq<char>>::empty());
    while at < spots.len()
        invariant
            all == wire::views(spots@),
            at <= spots@.len(),
            wire::views(files@) == files_named(all.take(at as int)),
        decreases spots@.len() - at,
    {
        let ghost before = wire::views(files@);
        assert(all.take(at + 1).drop_last() =~= all.take(at as int));
        assert(all[at as int] == spots@[at as int]@);
        if let Some(path) = uris::path_from_file_uri(spots[at].uri.as_str()) {
            if find_path(files.as_slice(), path.as_str()).is_none() {
                files.push(path);
                assert(wire::views(files@) =~= before.push(path@));
            }
        }
        at += 1;
    }
    assert(all.take(at as int) =~= all);
    files
}

/// What a line reads, off the text of its file - see [`line_read`].
fn read_line(text: &Option<String>, line: u32) -> (read: Option<String>)
    ensures
        match read {
            Some(read) => line_read(*text, line) == Some(encode_utf8(read@)),
            None => line_read(*text, line) is None,
        },
{
    match text {
        Some(text) => match positions::line_of(text.as_str(), line as usize) {
            Some(read) => Some(read.to_owned()),
            None => None,
        },
        None => None,
    }
}

/// One line as a caller opens it - see [`location_of`].
fn locate(
    spot: &Spot,
    path: &str,
    repo_root: &str,
    files: &[String],
    texts: &[Option<String>],
) -> (location: LspLocation)
    requires
        texts@.len() == files@.len(),
    ensures
        location@ == location_of(spot@, path@, repo_root@, wire::views(files@), texts@),
{
    let line_text = match find_path(files, path) {
        Some(at) => read_line(&texts[at], spot.line),
        None => None,
    };
    // The protocol counts lines from zero and the panes count from one.
    let line_number: usize = (spot.line as usize).saturating_add(1);
    LspLocation { file_path: paths::path_in_repo(path, repo_root), line_number, line_text }
}

/// Lines as a caller opens them, each file's text asked for once - see [`may_locate`].
pub fn locations_of<F: Fn(&str) -> Option<String>>(
    spots: &[Spot],
    repo_root: &str,
    text_of: &F,
) -> (locations: Vec<LspLocation>)
    requires
        forall|path: &str| call_requires(*text_of, (path,)),
    ensures
        may_locate(*text_of, wire::views(spots@), repo_root@, wire::views(locations@)),
{
    // Each file read once however many of its lines the answer names: the uses of a name are
    // often dozens of lines of one file.
    let files = files_of(spots);
    let ghost named = wire::views(files@);
    let mut texts: Vec<Option<String>> = Vec::new();
    let mut read: usize = 0;
    while read < files.len()
        invariant
            forall|path: &str| call_requires(*text_of, (path,)),
            named == wire::views(files@),
            read <= files@.len(),
            texts@.len() == read,
            forall|i: int| 0 <= i < read ==> may_give(*text_of, named[i], #[trigger] texts@[i]),
        decreases files@.len() - read,
    {
        let text = text_of(files[read].as_str());
        assert(may_give(*text_of, named[read as int], text));
        texts.push(text);
        read += 1;
    }
    let ghost all = wire::views(spots@);
    assert(may_be_given(*text_of, named, texts@));
    let mut locations: Vec<LspLocation> = Vec::new();
    let mut at: usize = 0;
    assert(all.take(0).len() == 0);
    assert(wire::views(locations@) =~= Seq::<LocationModel>::empty());
    while at < spots.len()
        invariant
            all == wire::views(spots@),
            named == wire::views(files@),
            texts@.len() == files@.len(),
            at <= spots@.len(),
            wire::views(locations@) == located(all.take(at as int), repo_root@, named, texts@),
        decreases spots@.len() - at,
    {
        let ghost before = wire::views(locations@);
        assert(all.take(at + 1).drop_last() =~= all.take(at as int));
        assert(all[at as int] == spots@[at as int]@);
        if let Some(path) = uris::path_from_file_uri(spots[at].uri.as_str()) {
            let location = locate(
                &spots[at],
                path.as_str(),
                repo_root,
                files.as_slice(),
                texts.as_slice(),
            );
            locations.push(location);
            assert(wire::views(locations@) =~= before.push(location@));
        }
        at += 1;
    }
    assert(all.take(at as int) =~= all);
    locations
}

/// The lines an answer names, in whichever shape it names them - see [`spots_in`].
pub fn spots_of(places: PlacesSaid) -> (spots: Vec<Spot>)
    ensures
        wire::views(spots@) == spots_in(places@),
{
    match places {
        PlacesSaid::One(spot) => {
            let mut spots: Vec<Spot> = Vec::new();
            spots.push(spot);
            assert(wire::views(spots@) =~= seq![spot@]);
            spots
        },
        PlacesSaid::Several(spots) => spots,
        PlacesSaid::Links(spots) => spots,
    }
}

/// The places an answer names, as the file pane opens them, each with what its line reads.
///
/// `text_of` hands over a file's text by its path on disk, so the line can be read off it -
/// the copy the server was sent for a file open in it, which is what the answer is about, and
/// the file on disk for any other. `None` from it leaves the place without its line rather
/// than dropping it: a file deleted since the server read it is still a place it named.
///
/// A definition outside the repo - a dependency's source, the standard library - keeps its
/// absolute path, because that is the only thing that names it. The pane decides whether it
/// can open one; making it a repo-relative path it is not would be a lie.
pub fn locations_from<F: Fn(&str) -> Option<String>>(
    answer: &str,
    repo_root: &str,
    text_of: &F,
) -> (locations: Result<Vec<LspLocation>, LspError>)
    requires
        forall|path: &str| call_requires(*text_of, (path,)),
    ensures
        answer@ == "null"@ ==> (locations matches Ok(found) && found@.len() == 0),
        match (if wire::is_too_long(answer@) {
            None
        } else {
            wire::places_in(answer@)
        }) {
            None => locations matches Err(error) && error@ == answers::unreadable(
                Answer::Places,
            ),
            Some(None) => locations matches Ok(found) && found@.len() == 0,
            Some(Some(places)) => locations matches Ok(found) && may_locate(
                *text_of,
                spots_in(places),
                repo_root@,
                wire::views(found@),
            ),
        },
{
    proof {
        wire::lemma_nothing_is_short();
    }
    if wire::too_long(answer) {
        return Err(LspError::Unreadable { answer: Answer::Places });
    }
    match wire::read_places(answer) {
        Ok(Some(places)) => {
            let spots = spots_of(places);
            Ok(locations_of(spots.as_slice(), repo_root, text_of))
        },
        Ok(None) => Ok(Vec::new()),
        Err(_) => Err(LspError::Unreadable { answer: Answer::Places }),
    }
}

// ---------------------------------------------------------------------------------------------
// What places promise
// ---------------------------------------------------------------------------------------------

proof fn lemma_known_path(known: Seq<Seq<char>>, path: Seq<char>, from: int)
    requires
        0 <= from <= known.len(),
    ensures
        match known_path(known, path, from) {
            Some(at) => from <= at < known.len() && paths::components(known[at])
                == paths::components(path),
            None => forall|i: int|
                from <= i < known.len() ==> paths::components(#[trigger] known[i])
                    != paths::components(path),
        },
    decreases known.len() - from,
{
    if from < known.len() && paths::components(known[from]) != paths::components(path) {
        lemma_known_path(known, path, from + 1);
    }
}

/// Each file is read once however many of its lines are named: no two of the files asked for are
/// the same file, however their paths are written.
pub proof fn law_each_file_is_read_once(spots: Seq<SpotModel>, i: int, j: int)
    requires
        0 <= i < j < files_named(spots).len(),
    ensures
        paths::components(files_named(spots)[i]) != paths::components(files_named(spots)[j]),
    decreases spots.len(),
{
    let fewer = spots.drop_last();
    let before = files_named(fewer);
    if j < before.len() {
        law_each_file_is_read_once(fewer, i, j);
    } else {
        lemma_known_path(before, path_of(spots.last())->0, 0);
        assert(files_named(spots)[i] == before[i]);
    }
}

/// Every line that is in a file has that file among those that are read.
pub proof fn law_every_file_named_is_read(spots: Seq<SpotModel>, i: int)
    requires
        0 <= i < spots.len(),
        path_of(spots[i]) is Some,
    ensures
        known_path(files_named(spots), path_of(spots[i])->0, 0) is Some,
    decreases spots.len(),
{
    let fewer = spots.drop_last();
    let before = files_named(fewer);
    let files = files_named(spots);
    let path = path_of(spots[i])->0;
    lemma_known_path(files, path, 0);
    if i < fewer.len() {
        law_every_file_named_is_read(fewer, i);
        lemma_known_path(before, path, 0);
        let at = known_path(before, path, 0)->0;
        assert(files[at] == before[at]);
    } else {
        lemma_known_path(before, path, 0);
        if known_path(before, path, 0) is None {
            assert(files[before.len() as int] == path);
        }
    }
}

/// A place is left out exactly when it names nothing on disk; one whose file cannot be read keeps
/// its place, without its line.
pub proof fn law_a_place_on_disk_is_kept(
    spots: Seq<SpotModel>,
    repo_root: Seq<char>,
    files: Seq<Seq<char>>,
    texts: Seq<Option<String>>,
)
    requires
        forall|i: int| 0 <= i < spots.len() ==> path_of(#[trigger] spots[i]) is Some,
    ensures
        located(spots, repo_root, files, texts).len() == spots.len(),
        forall|i: int|
            0 <= i < spots.len() ==> #[trigger] located(spots, repo_root, files, texts)[i]
                == location_of(spots[i], path_of(spots[i])->0, repo_root, files, texts),
    decreases spots.len(),
{
    if spots.len() > 0 {
        let fewer = spots.drop_last();
        assert(forall|i: int| 0 <= i < fewer.len() ==> fewer[i] == spots[i]);
        law_a_place_on_disk_is_kept(fewer, repo_root, files, texts);
        assert(path_of(spots[spots.len() - 1]) is Some);
    }
}

/// The protocol counts lines from zero and a caller from one.
pub proof fn law_lines_are_counted_from_one(line: u32)
    requires
        line < usize::MAX,
    ensures
        counted_from_one(line) == line + 1,
{
}

/// Whatever shape an answer has, the lines read off it are exactly the ones it names, as many of them
/// and in the same order.
pub proof fn law_every_shape_names_its_lines(spot: SpotModel, spots: Seq<SpotModel>)
    ensures
        spots_in(PlacesModel::One(spot)).len() == 1,
        spots_in(PlacesModel::One(spot))[0] == spot,
        spots_in(PlacesModel::Several(spots)).len() == spots.len(),
        spots_in(PlacesModel::Links(spots)).len() == spots.len(),
        forall|i: int|
            0 <= i < spots.len() ==> #[trigger] spots_in(PlacesModel::Several(spots))[i]
                == spots[i],
        forall|i: int|
            0 <= i < spots.len() ==> #[trigger] spots_in(PlacesModel::Links(spots))[i] == spots[i],
{
}

proof fn lemma_located_are_those_on_disk(
    spots: Seq<SpotModel>,
    repo_root: Seq<char>,
    files: Seq<Seq<char>>,
    texts: Seq<Option<String>>,
)
    ensures
        located(spots, repo_root, files, texts).len() == spots.filter(
            |spot: SpotModel| uris::path_named(encode_utf8(spot.uri)) is Some,
        ).len(),
        forall|i: int|
            0 <= i < located(spots, repo_root, files, texts).len() ==> {
                let spot = spots.filter(
                    |spot: SpotModel| uris::path_named(encode_utf8(spot.uri)) is Some,
                )[i];
                &&& spots.contains(spot)
                &&& path_of(spot) is Some
                &&& #[trigger] located(spots, repo_root, files, texts)[i] == location_of(
                    spot,
                    path_of(spot)->0,
                    repo_root,
                    files,
                    texts,
                )
            },
    decreases spots.len(),
{
    reveal(Seq::filter);
    if spots.len() > 0 {
        let fewer = spots.drop_last();
        lemma_located_are_those_on_disk(fewer, repo_root, files, texts);
        assert(spots[spots.len() - 1] == spots.last());
        assert forall|spot: SpotModel| fewer.contains(spot) implies spots.contains(spot) by {
            let at = choose|at: int| 0 <= at < fewer.len() && fewer[at] == spot;
            assert(spots[at] == spot);
        }
    }
}

/// An answer comes to one location for each of the lines it names that is in a file, in the order it
/// names them: by the name of that file, with its line counted from one, and with what that line
/// reads in the text that was handed over for that file.
pub proof fn law_each_line_in_a_file_comes_to_a_location<F: Fn(&str) -> Option<String>>(
    text_of: F,
    spots: Seq<SpotModel>,
    repo_root: Seq<char>,
    locations: Seq<LocationModel>,
)
    requires
        may_locate(text_of, spots, repo_root, locations),
    ensures
        locations.len() == spots.filter(
            |spot: SpotModel| uris::path_named(encode_utf8(spot.uri)) is Some,
        ).len(),
        forall|i: int|
            0 <= i < locations.len() ==> {
                let spot = spots.filter(
                    |spot: SpotModel| uris::path_named(encode_utf8(spot.uri)) is Some,
                )[i];
                let path = uris::path_named(encode_utf8(spot.uri))->0;
                &&& (#[trigger] locations[i]).file_path == paths::named_in_repo(path, repo_root)
                &&& spot.line < usize::MAX ==> locations[i].line_number == spot.line + 1
                &&& exists|asked: Seq<char>, text: Option<String>|
                    {
                        &&& paths::components(asked) == paths::components(path)
                        &&& #[trigger] may_give(text_of, asked, text)
                        &&& locations[i].line_text == match text {
                            Some(text) => positions::line_in(
                                encode_utf8(text@),
                                spot.line as nat,
                            ),
                            None => None,
                        }
                    }
            },
{
    let files = files_named(spots);
    let texts = choose|texts: Seq<Option<String>>| #[trigger]
        may_be_given(text_of, files_named(spots), texts) && locations == located(
            spots,
            repo_root,
            files_named(spots),
            texts,
        );
    lemma_located_are_those_on_disk(spots, repo_root, files, texts);
    let kept = spots.filter(|spot: SpotModel| uris::path_named(encode_utf8(spot.uri)) is Some);
    assert forall|i: int| 0 <= i < locations.len() implies {
        let spot = kept[i];
        let path = uris::path_named(encode_utf8(spot.uri))->0;
        &&& (#[trigger] locations[i]).file_path == paths::named_in_repo(path, repo_root)
        &&& spot.line < usize::MAX ==> locations[i].line_number == spot.line + 1
        &&& exists|asked: Seq<char>, text: Option<String>|
            {
                &&& paths::components(asked) == paths::components(path)
                &&& #[trigger] may_give(text_of, asked, text)
                &&& locations[i].line_text == match text {
                    Some(text) => positions::line_in(encode_utf8(text@), spot.line as nat),
                    None => None,
                }
            }
    } by {
        let spot = kept[i];
        let path = path_of(spot)->0;
        assert(locations[i] == location_of(spot, path, repo_root, files, texts));
        let there = choose|there: int| 0 <= there < spots.len() && spots[there] == spot;
        law_every_file_named_is_read(spots, there);
        lemma_known_path(files, path, 0);
        let at = known_path(files, path, 0)->0;
        assert(may_give(text_of, files[at], texts[at]));
    }
}

/// An answer that names places that are all files comes to as many locations as it names places,
/// whichever shape it names them in.
pub proof fn law_as_many_locations_as_places<F: Fn(&str) -> Option<String>>(
    text_of: F,
    spot: SpotModel,
    spots: Seq<SpotModel>,
    repo_root: Seq<char>,
    locations: Seq<LocationModel>,
)
    requires
        uris::path_named(encode_utf8(spot.uri)) is Some,
        forall|i: int|
            0 <= i < spots.len() ==> uris::path_named(encode_utf8((#[trigger] spots[i]).uri)) is Some,
    ensures
        may_locate(text_of, spots_in(PlacesModel::One(spot)), repo_root, locations)
            ==> locations.len() == 1,
        may_locate(text_of, spots_in(PlacesModel::Several(spots)), repo_root, locations)
            ==> locations.len() == spots.len(),
        may_locate(text_of, spots_in(PlacesModel::Links(spots)), repo_root, locations)
            ==> locations.len() == spots.len(),
{
    lemma_as_many(text_of, seq![spot], repo_root, locations);
    lemma_as_many(text_of, spots, repo_root, locations);
}

proof fn lemma_as_many<F: Fn(&str) -> Option<String>>(
    text_of: F,
    spots: Seq<SpotModel>,
    repo_root: Seq<char>,
    locations: Seq<LocationModel>,
)
    requires
        forall|i: int|
            0 <= i < spots.len() ==> uris::path_named(encode_utf8((#[trigger] spots[i]).uri)) is Some,
    ensures
        may_locate(text_of, spots, repo_root, locations) ==> locations.len() == spots.len(),
{
    if may_locate(text_of, spots, repo_root, locations) {
        let texts = choose|texts: Seq<Option<String>>| #[trigger]
            may_be_given(text_of, files_named(spots), texts) && locations == located(
                spots,
                repo_root,
                files_named(spots),
                texts,
            );
        law_a_place_on_disk_is_kept(spots, repo_root, files_named(spots), texts);
    }
}

} // verus!
