//! What is made of the answers that change several files: a rename, and a code action.
//!
//! A place in such an answer is counted in the server's units against the text the server has of
//! each file, so the text of each file it names is asked for, and everything is refused together
//! where any of it could not be carried out as it was meant.

use vstd::prelude::*;
use vstd::string::*;
use vstd::utf8::*;

use crate::edits;
use crate::error::{Answer, Fault, LspError};
use crate::order;
use crate::order::Ranked;
use crate::paths;
use crate::payload::{ActionModel, FileEditModel, LspCodeAction, LspFileEdit, TextEditModel};
use crate::process::PositionEncoding;
use crate::protocol::answers;
use crate::protocol::uris;
use crate::protocol::wire;
use crate::protocol::wire::{
    Change, ChangeModel, Offered, OfferedModel, Replacement, ReplacementModel,
};
use crate::text;

verus! {

broadcast use vstd::string::group_string_axioms;

// ---------------------------------------------------------------------------------------------
// The edits of an answer, document by document
// ---------------------------------------------------------------------------------------------

impl Ranked for (String, Vec<Replacement>) {
    type Model = (Seq<char>, Seq<ReplacementModel>);

    open spec fn model(&self) -> (Seq<char>, Seq<ReplacementModel>) {
        (self.0@, wire::views(self.1@))
    }

    /// Documents belong in the order of their names, byte for byte.
    open spec fn behind(
        left: (Seq<char>, Seq<ReplacementModel>),
        right: (Seq<char>, Seq<ReplacementModel>),
    ) -> bool {
        text::is_after(encode_utf8(left.0), encode_utf8(right.0))
    }

    proof fn lemma_ranks(
        first: (Seq<char>, Seq<ReplacementModel>),
        second: (Seq<char>, Seq<ReplacementModel>),
        third: (Seq<char>, Seq<ReplacementModel>),
    ) {
        text::lemma_byte_order(encode_utf8(first.0), encode_utf8(second.0), encode_utf8(third.0));
    }

    fn is_behind(&self, other: &Self) -> (behind: bool) {
        text::comes_after(self.0.as_str(), other.0.as_str())
    }
}

/// Whether entries are exactly those of a map, in the order of their names.
pub open spec fn lists(
    entries: Seq<(Seq<char>, Seq<ReplacementModel>)>,
    changes: Map<Seq<char>, Seq<ReplacementModel>>,
) -> bool {
    &&& order::strictly_in_order::<(String, Vec<Replacement>)>(entries)
    &&& forall|entry: (Seq<char>, Seq<ReplacementModel>)| #[trigger]
        entries.contains(entry) <==> changes.contains_key(entry.0) && changes[entry.0] == entry.1
}

/// The entries of a map in the order of their names.
pub open spec fn listed(changes: Map<Seq<char>, Seq<ReplacementModel>>) -> Seq<
    (Seq<char>, Seq<ReplacementModel>),
> {
    choose|entries: Seq<(Seq<char>, Seq<ReplacementModel>)>| lists(entries, changes)
}

/// The entries of the newer shape, or a refusal where one of them is no edit of a document.
pub open spec fn entries_in(changes: Seq<ChangeModel>) -> Result<
    Seq<(Seq<char>, Seq<ReplacementModel>)>,
    Fault,
>
    decreases changes.len(),
{
    if changes.len() == 0 {
        Ok(Seq::empty())
    } else {
        match (entries_in(changes.drop_last()), changes.last()) {
            (Err(fault), _) => Err(fault),
            (Ok(_), ChangeModel::MovesAFile) => Err(Fault::MovesFiles),
            (Ok(before), ChangeModel::Edits(uri, edits)) => Ok(before.push((uri, edits))),
        }
    }
}

/// The text edits of an answer, by the URI of the document each is in: those of the newer shape
/// where the answer has it, and those of the older in the order of their names where it has not. An
/// answer with a string too long for a URI is one that cannot be read.
pub open spec fn entries_said(answer: Seq<char>) -> Result<
    Seq<(Seq<char>, Seq<ReplacementModel>)>,
    Fault,
> {
    if wire::is_too_long(answer) {
        Err(answers::unreadable(Answer::Edits))
    } else {
        match wire::documents_in(answer) {
            None => Err(answers::unreadable(Answer::Edits)),
            Some(None) => Ok(Seq::empty()),
            Some(Some(Some(changes))) => entries_in(changes),
            Some(Some(None)) => match wire::mapped_in(answer) {
                None => Err(answers::unreadable(Answer::Edits)),
                Some(Some(Some(changes))) => Ok(listed(changes)),
                Some(_) => Ok(Seq::empty()),
            },
        }
    }
}

/// What distinct entries come to by their URI.
proof fn lemma_mapped(entries: Seq<(String, Vec<Replacement>)>)
    requires
        wire::are_distinct(entries),
    ensures
        forall|entry: (Seq<char>, Seq<ReplacementModel>)| #[trigger]
            order::models(entries).contains(entry) <==> wire::mapped(entries).contains_key(entry.0)
                && wire::mapped(entries)[entry.0] == entry.1,
    decreases entries.len(),
{
    let all = order::models(entries);
    if entries.len() > 0 {
        let shorter = entries.drop_last();
        let fewer = order::models(shorter);
        let last = entries.last();
        let named = (last.0@, wire::views(last.1@));
        lemma_mapped(shorter);
        assert(all =~= fewer.push(named));
        assert forall|entry: (Seq<char>, Seq<ReplacementModel>)| #[trigger]
            all.contains(entry) <==> wire::mapped(entries).contains_key(entry.0) && wire::mapped(
                entries,
            )[entry.0] == entry.1 by {
            if all.contains(entry) {
                let at = choose|at: int| 0 <= at < all.len() && all[at] == entry;
                if at < fewer.len() {
                    assert(fewer[at] == entry);
                    assert(fewer.contains(entry));
                    assert(entries[at].0@ != entries[entries.len() - 1].0@);
                }
            }
            if wire::mapped(entries).contains_key(entry.0) && wire::mapped(entries)[entry.0]
                == entry.1 {
                if entry.0 == last.0@ {
                    assert(all[all.len() - 1] == entry);
                } else {
                    assert(fewer.contains(entry));
                    let at = choose|at: int| 0 <= at < fewer.len() && fewer[at] == entry;
                    assert(all[at] == entry);
                }
            }
        }
    }
}

/// Distinct entries put in order are the map they make, listed.
proof fn lemma_listed(entries: Seq<(String, Vec<Replacement>)>)
    requires
        wire::are_distinct(entries),
    ensures
        order::ranked::<(String, Vec<Replacement>)>(order::models(entries)) == listed(
            wire::mapped(entries),
        ),
{
    let all = order::models(entries);
    let changes = wire::mapped(entries);
    lemma_mapped(entries);
    assert forall|i: int, j: int| 0 <= i < j < all.len() implies (<(
        String,
        Vec<Replacement>,
    )>::behind(#[trigger] all[i], #[trigger] all[j]) || <(String, Vec<Replacement>)>::behind(
        all[j],
        all[i],
    )) by {
        let one = entries[i].0@;
        let other = entries[j].0@;
        assert(one != other);
        encode_utf8_decode_utf8(one);
        encode_utf8_decode_utf8(other);
        text::lemma_byte_order(encode_utf8(one), encode_utf8(other), encode_utf8(other));
    }
    order::law_things_apart_are_put_strictly_in_order::<(String, Vec<Replacement>)>(all);
    let sorted = order::ranked::<(String, Vec<Replacement>)>(all);
    assert forall|entry: (Seq<char>, Seq<ReplacementModel>)| #[trigger]
        sorted.contains(entry) <==> changes.contains_key(entry.0) && changes[entry.0]
            == entry.1 by {
        assert(sorted.contains(entry) <==> all.contains(entry));
    }
    assert(lists(sorted, changes));
    let chosen = listed(changes);
    assert(lists(chosen, changes));
    assert forall|entry: (Seq<char>, Seq<ReplacementModel>)|
        sorted.contains(entry) <==> chosen.contains(entry) by {
    }
    order::law_there_is_one_order::<(String, Vec<Replacement>)>(sorted, chosen);
}

/// What one entry that moves a file says of all of them.
proof fn lemma_first_moved(changes: Seq<ChangeModel>, shown: int)
    requires
        0 <= shown < changes.len(),
        entries_in(changes.take(shown)) is Ok,
        changes[shown] == ChangeModel::MovesAFile,
    ensures
        entries_in(changes) == Err::<Seq<(Seq<char>, Seq<ReplacementModel>)>, Fault>(
            Fault::MovesFiles,
        ),
    decreases changes.len(),
{
    if shown + 1 == changes.len() {
        assert(changes.drop_last() =~= changes.take(shown));
    } else {
        assert(changes.drop_last().take(shown) =~= changes.take(shown));
        lemma_first_moved(changes.drop_last(), shown);
    }
}

/// Whether entries, or a refusal, are the ones a contract says.
pub open spec fn entries_are(
    outcome: Result<Vec<(String, Vec<Replacement>)>, LspError>,
    model: Result<Seq<(Seq<char>, Seq<ReplacementModel>)>, Fault>,
) -> bool {
    match outcome {
        Ok(entries) => model == Ok::<Seq<(Seq<char>, Seq<ReplacementModel>)>, Fault>(
            order::models(entries@),
        ),
        Err(error) => model == Err::<Seq<(Seq<char>, Seq<ReplacementModel>)>, Fault>(error@),
    }
}

/// The entries of the newer shape - see [`entries_in`].
pub fn entries_of_documents(changes: Vec<Change>) -> (entries: Result<
    Vec<(String, Vec<Replacement>)>,
    LspError,
>)
    ensures
        entries_are(entries, entries_in(wire::views(changes@))),
{
    let ghost all = wire::views(changes@);
    let mut entries: Vec<(String, Vec<Replacement>)> = Vec::new();
    assert(all.take(0).len() == 0);
    assert(order::models(entries@) =~= Seq::<(Seq<char>, Seq<ReplacementModel>)>::empty());
    for change in it: changes
        invariant
            wire::views(it.seq()) == all,
            entries_in(all.take(it.index())) == Ok::<
                Seq<(Seq<char>, Seq<ReplacementModel>)>,
                Fault,
            >(order::models(entries@)),
    {
        let ghost before = order::models(entries@);
        proof {
            assert(all[it.index()] == change@);
            assert(all.take(it.index() + 1).drop_last() =~= all.take(it.index()));
        }
        match change {
            Change::Edits(uri, edits) => {
                entries.push((uri, edits));
                assert(order::models(entries@) =~= before.push((uri@, wire::views(edits@))));
            },
            Change::MovesAFile => {
                proof {
                    lemma_first_moved(all, it.index());
                }
                return Err(LspError::MovesFiles);
            },
        }
    }
    assert(all.take(all.len() as int) =~= all);
    Ok(entries)
}

/// The entries of the older shape, put in the order of their names - see [`listed`].
pub fn entries_of_map(changes: Vec<(String, Vec<Replacement>)>) -> (entries: Vec<
    (String, Vec<Replacement>),
>)
    requires
        wire::are_distinct(changes@),
    ensures
        order::models(entries@) == listed(wire::mapped(changes@)),
{
    proof {
        lemma_listed(changes@);
    }
    order::sort(changes)
}

/// The text edits of an answer, by the URI of the document each is in.
///
/// The protocol has two shapes for this. `documentChanges` is the newer and, where a server
/// sends both, the one the protocol says to read. `changes` is a map, so its files are put in
/// the order of their names - a hash map's own order would have the same answer read in a
/// different order every time.
pub fn edits_by_uri(answer: &str) -> (entries: Result<Vec<(String, Vec<Replacement>)>, LspError>)
    ensures
        answer@ == "null"@ ==> (entries matches Ok(entries) && entries@.len() == 0),
        entries_are(entries, entries_said(answer@)),
{
    let none: Vec<(String, Vec<Replacement>)> = Vec::new();
    assert(order::models(none@) =~= Seq::<(Seq<char>, Seq<ReplacementModel>)>::empty());
    proof {
        wire::lemma_nothing_is_short();
    }
    if wire::too_long(answer) {
        return Err(LspError::Unreadable { answer: Answer::Edits });
    }
    match wire::read_documents(answer) {
        Err(_) => Err(LspError::Unreadable { answer: Answer::Edits }),
        Ok(None) => Ok(none),
        Ok(Some(Some(changes))) => entries_of_documents(changes),
        Ok(Some(None)) => match wire::read_mapped(answer) {
            Err(_) => Err(LspError::Unreadable { answer: Answer::Edits }),
            Ok(None) => Ok(none),
            Ok(Some(mapped)) => match mapped.changes {
                Some(changes) => Ok(entries_of_map(changes)),
                None => Ok(none),
            },
        },
    }
}

// ---------------------------------------------------------------------------------------------
// By file
// ---------------------------------------------------------------------------------------------

/// The file of the repo a URI names, or why it names none.
pub open spec fn file_of(uri: Seq<char>, repo_root: Seq<char>) -> Result<Seq<char>, Fault> {
    match uris::path_named(encode_utf8(uri)) {
        None => Err(Fault::NoFileOnDisk { uri }),
        Some(path) => match paths::relative_to(path, repo_root) {
            None => Err(Fault::OutsideTheRepo { path }),
            Some(file_path) => Ok(file_path),
        },
    }
}

/// Where a file is among files, if it is.
pub open spec fn known_at(
    groups: Seq<(Seq<char>, Seq<ReplacementModel>)>,
    file_path: Seq<char>,
    from: int,
) -> Option<int>
    decreases groups.len() - from,
{
    if from >= groups.len() {
        None
    } else if groups[from].0 == file_path {
        Some(from)
    } else {
        known_at(groups, file_path, from + 1)
    }
}

/// Files with the edits of one more entry: among those of the file where it is known, and at the
/// end where it is not.
pub open spec fn joined_in(
    groups: Seq<(Seq<char>, Seq<ReplacementModel>)>,
    file_path: Seq<char>,
    edits: Seq<ReplacementModel>,
) -> Seq<(Seq<char>, Seq<ReplacementModel>)> {
    match known_at(groups, file_path, 0) {
        Some(at) => groups.update(at, (file_path, groups[at].1 + edits)),
        None => groups.push((file_path, edits)),
    }
}

/// Entries by file, in the order the answer first names each one, or what is wrong with the first
/// of them there is something wrong with.
pub open spec fn grouped(
    entries: Seq<(Seq<char>, Seq<ReplacementModel>)>,
    repo_root: Seq<char>,
) -> Result<Seq<(Seq<char>, Seq<ReplacementModel>)>, Fault>
    decreases entries.len(),
{
    if entries.len() == 0 {
        Ok(Seq::empty())
    } else {
        match (grouped(entries.drop_last(), repo_root), file_of(entries.last().0, repo_root)) {
            (Err(fault), _) => Err(fault),
            (Ok(_), Err(fault)) => Err(fault),
            (Ok(groups), Ok(file_path)) => Ok(joined_in(groups, file_path, entries.last().1)),
        }
    }
}

proof fn lemma_first_ungrouped(
    entries: Seq<(Seq<char>, Seq<ReplacementModel>)>,
    repo_root: Seq<char>,
    shown: int,
    fault: Fault,
)
    requires
        0 <= shown < entries.len(),
        grouped(entries.take(shown), repo_root) is Ok,
        file_of(entries[shown].0, repo_root) == Err::<Seq<char>, Fault>(fault),
    ensures
        grouped(entries, repo_root) == Err::<Seq<(Seq<char>, Seq<ReplacementModel>)>, Fault>(
            fault,
        ),
    decreases entries.len(),
{
    if shown + 1 == entries.len() {
        assert(entries.drop_last() =~= entries.take(shown));
    } else {
        assert(entries.drop_last().take(shown) =~= entries.take(shown));
        lemma_first_ungrouped(entries.drop_last(), repo_root, shown, fault);
    }
}

/// The file of the repo a URI names - see [`file_of`].
fn file_named(uri: &str, repo_root: &str) -> (file_path: Result<String, LspError>)
    ensures
        match file_path {
            Ok(file_path) => file_of(uri@, repo_root@) == Ok::<Seq<char>, Fault>(file_path@),
            Err(error) => file_of(uri@, repo_root@) == Err::<Seq<char>, Fault>(error@),
        },
{
    match uris::path_from_file_uri(uri) {
        None => Err(LspError::NoFileOnDisk { uri: uri.to_owned() }),
        Some(path) => match paths::strip_prefix(path.as_str(), repo_root) {
            None => Err(LspError::OutsideTheRepo { path }),
            Some(file_path) => Ok(file_path),
        },
    }
}

/// Files with the edits of one more entry - see [`joined_in`].
fn join_in(
    groups: &mut Vec<(String, Vec<Replacement>)>,
    file_path: String,
    edits: Vec<Replacement>,
)
    ensures
        order::models(final(groups)@) == joined_in(
            order::models(old(groups)@),
            file_path@,
            wire::views(edits@),
        ),
{
    let ghost before = order::models(groups@);
    let mut at: usize = 0;
    while at < groups.len()
        invariant
            *groups == *old(groups),
            before == order::models(groups@),
            at <= groups@.len(),
            known_at(before, file_path@, 0) == known_at(before, file_path@, at as int),
        decreases groups@.len() - at,
    {
        assert(before[at as int].0 == groups@[at as int].0@);
        if text::same(groups[at].0.as_str(), file_path.as_str()) {
            let (known, mut all) = groups.remove(at);
            let mut edits = edits;
            let ghost had = wire::views(all@);
            let ghost new = wire::views(edits@);
            all.append(&mut edits);
            assert(wire::views(all@) =~= had + new);
            groups.insert(at, (known, all));
            assert(order::models(groups@) =~= before.update(
                at as int,
                (file_path@, before[at as int].1 + new),
            ));
            return ;
        }
        at += 1;
    }
    groups.push((file_path, edits));
    assert(order::models(groups@) =~= before.push((file_path@, wire::views(edits@))));
}

/// Entries by file - see [`grouped`].
pub fn by_file(entries: Vec<(String, Vec<Replacement>)>, repo_root: &str) -> (groups: Result<
    Vec<(String, Vec<Replacement>)>,
    LspError,
>)
    ensures
        entries_are(groups, grouped(order::models(entries@), repo_root@)),
{
    let ghost all = order::models(entries@);
    let mut groups: Vec<(String, Vec<Replacement>)> = Vec::new();
    assert(all.take(0).len() == 0);
    assert(order::models(groups@) =~= Seq::<(Seq<char>, Seq<ReplacementModel>)>::empty());
    for entry in it: entries
        invariant
            order::models(it.seq()) == all,
            grouped(all.take(it.index()), repo_root@) == Ok::<
                Seq<(Seq<char>, Seq<ReplacementModel>)>,
                Fault,
            >(order::models(groups@)),
    {
        let (uri, edits) = entry;
        proof {
            assert(all[it.index()] == (uri@, wire::views(edits@)));
            assert(all.take(it.index() + 1).drop_last() =~= all.take(it.index()));
        }
        match file_named(uri.as_str(), repo_root) {
            Ok(file_path) => {
                join_in(&mut groups, file_path, edits);
            },
            Err(error) => {
                proof {
                    lemma_first_ungrouped(all, repo_root@, it.index(), error@);
                }
                return Err(error);
            },
        }
    }
    assert(all.take(all.len() as int) =~= all);
    Ok(groups)
}

// ---------------------------------------------------------------------------------------------
// In the editor's units
// ---------------------------------------------------------------------------------------------

/// Why edits do not fit the file they are to.
pub open spec fn misfit(file_path: Seq<char>, fault: Fault) -> Fault {
    match fault {
        Fault::LinePastFile { line } => Fault::DoesNotFit { file_path, line },
        other => other,
    }
}

/// The edits to one file in the editor's units, counted against its text and in the order they sit
/// in it. Refused where one of them ends before it starts or two of them overlap.
pub open spec fn fitted(
    group: (Seq<char>, Seq<ReplacementModel>),
    text: Seq<char>,
    encoding: PositionEncoding,
) -> Result<FileEditModel, Fault> {
    match answers::edits_named(encode_utf8(text), group.1, encoding) {
        Err(fault) => Err(misfit(group.0, fault)),
        Ok(edits) => match edits::sitting(encode_utf8(text), edits) {
            Err(fault) => Err(fault),
            Ok(edits) => Ok(FileEditModel { file_path: group.0, edits }),
        },
    }
}

/// One file read and its edits fitted to it.
pub open spec fn read_and_fitted(
    group: (Seq<char>, Seq<ReplacementModel>),
    text: Result<String, LspError>,
    encoding: PositionEncoding,
) -> Result<FileEditModel, Fault> {
    match text {
        Ok(text) => fitted(group, text@, encoding),
        Err(error) => Err(error@),
    }
}

/// Several files read and their edits fitted to them, or what is wrong with the first there is
/// something wrong with.
pub open spec fn files_from(
    groups: Seq<(Seq<char>, Seq<ReplacementModel>)>,
    texts: Seq<Result<String, LspError>>,
    encoding: PositionEncoding,
) -> Result<Seq<FileEditModel>, Fault>
    decreases groups.len(),
{
    if groups.len() == 0 {
        Ok(Seq::empty())
    } else {
        match (files_from(groups.drop_last(), texts.drop_last(), encoding), read_and_fitted(
            groups.last(),
            texts.last(),
            encoding,
        )) {
            (Err(fault), _) => Err(fault),
            (Ok(_), Err(fault)) => Err(fault),
            (Ok(before), Ok(file)) => Ok(before.push(file)),
        }
    }
}

/// Whether a file may be read as this.
pub open spec fn may_read<F: Fn(&str) -> Result<String, LspError>>(
    text_of: F,
    file_path: Seq<char>,
    text: Result<String, LspError>,
) -> bool {
    exists|asked: &str| asked@ == file_path && call_ensures(text_of, (asked,), text)
}

/// Whether texts are what files may be read as - each that is read at all, which is up to the
/// first there is something wrong with.
pub open spec fn may_be_read<F: Fn(&str) -> Result<String, LspError>>(
    text_of: F,
    groups: Seq<(Seq<char>, Seq<ReplacementModel>)>,
    texts: Seq<Result<String, LspError>>,
    encoding: PositionEncoding,
) -> bool {
    &&& texts.len() == groups.len()
    &&& forall|i: int|
        0 <= i < groups.len() && files_from(groups.take(i), texts.take(i), encoding) is Ok
            ==> may_read(text_of, groups[i].0, #[trigger] texts[i])
}

/// Whether this may be what entries come to: what is wrong with them, or what their files read as
/// make of them.
pub open spec fn may_come_to<F: Fn(&str) -> Result<String, LspError>>(
    text_of: F,
    entries: Result<Seq<(Seq<char>, Seq<ReplacementModel>)>, Fault>,
    repo_root: Seq<char>,
    encoding: PositionEncoding,
    outcome: Result<Seq<FileEditModel>, Fault>,
) -> bool {
    match entries {
        Err(fault) => outcome == Err::<Seq<FileEditModel>, Fault>(fault),
        Ok(entries) => match grouped(entries, repo_root) {
            Err(fault) => outcome == Err::<Seq<FileEditModel>, Fault>(fault),
            Ok(groups) => exists|texts: Seq<Result<String, LspError>>| #[trigger]
                may_be_read(text_of, groups, texts, encoding) && outcome == files_from(
                    groups,
                    texts,
                    encoding,
                ),
        },
    }
}

/// Whether no file is changed twice, and in each of them edits sit one behind another and never
/// overlap.
pub open spec fn are_apart(files: Seq<FileEditModel>) -> bool {
    &&& forall|i: int, j: int|
        0 <= i < j < files.len() ==> (#[trigger] files[i]).file_path != (
        #[trigger] files[j]).file_path
    &&& forall|i: int|
        0 <= i < files.len() ==> edits::never_overlap((#[trigger] files[i]).edits)
}

/// What a list of files, or a refusal, is to a contract.
pub open spec fn outcome_of(files: Result<Vec<LspFileEdit>, LspError>) -> Result<
    Seq<FileEditModel>,
    Fault,
> {
    match files {
        Ok(files) => Ok(wire::views(files@)),
        Err(error) => Err(error@),
    }
}

proof fn lemma_first_unfitted(
    groups: Seq<(Seq<char>, Seq<ReplacementModel>)>,
    texts: Seq<Result<String, LspError>>,
    encoding: PositionEncoding,
    shown: int,
    fault: Fault,
)
    requires
        0 <= shown < groups.len(),
        texts.len() == groups.len(),
        files_from(groups.take(shown), texts.take(shown), encoding) is Ok,
        read_and_fitted(groups[shown], texts[shown], encoding) == Err::<FileEditModel, Fault>(
            fault,
        ),
    ensures
        files_from(groups, texts, encoding) == Err::<Seq<FileEditModel>, Fault>(fault),
        forall|i: int|
            shown < i <= groups.len() ==> #[trigger] files_from(
                groups.take(i),
                texts.take(i),
                encoding,
            ) is Err,
    decreases groups.len(),
{
    if shown + 1 == groups.len() {
        assert(groups.drop_last() =~= groups.take(shown));
        assert(texts.drop_last() =~= texts.take(shown));
    } else {
        let fewer = groups.drop_last();
        let rest = texts.drop_last();
        assert(fewer.take(shown) =~= groups.take(shown));
        assert(rest.take(shown) =~= texts.take(shown));
        lemma_first_unfitted(fewer, rest, encoding, shown, fault);
        assert forall|i: int| shown < i < groups.len() implies #[trigger] files_from(
            groups.take(i),
            texts.take(i),
            encoding,
        ) is Err by {
            assert(fewer.take(i) =~= groups.take(i));
            assert(rest.take(i) =~= texts.take(i));
        }
    }
    assert(groups.take(groups.len() as int) =~= groups);
    assert(texts.take(texts.len() as int) =~= texts);
}

/// The edits to one file in the editor's units - see [`fitted`].
fn fit(file_path: String, edits: &[Replacement], text: &str, encoding: PositionEncoding) -> (file:
    Result<LspFileEdit, LspError>)
    ensures
        match file {
            Ok(file) => fitted((file_path@, wire::views(edits@)), text@, encoding) == Ok::<
                FileEditModel,
                Fault,
            >(file@),
            Err(error) => fitted((file_path@, wire::views(edits@)), text@, encoding) == Err::<
                FileEditModel,
                Fault,
            >(error@),
        },
{
    match answers::edits_in_turn(edits, text, encoding) {
        Ok(edits) => match edits::in_place(text, edits) {
            Ok(edits) => {
                let file = LspFileEdit { file_path, edits };
                assert(file@.edits =~= wire::views(edits@));
                Ok(file)
            },
            Err(error) => Err(error),
        },
        Err(LspError::LinePastFile { line }) => Err(LspError::DoesNotFit { file_path, line }),
        Err(error) => Err(error),
    }
}

/// The edits of files in the editor's units, each file's text asked for once - see [`files_from`].
pub fn file_edits_in<F: Fn(&str) -> Result<String, LspError>>(
    groups: Vec<(String, Vec<Replacement>)>,
    encoding: PositionEncoding,
    text_of: &F,
) -> (files: Result<Vec<LspFileEdit>, LspError>)
    requires
        forall|path: &str| call_requires(*text_of, (path,)),
    ensures
        exists|texts: Seq<Result<String, LspError>>| #[trigger]
            may_be_read(*text_of, order::models(groups@), texts, encoding) && outcome_of(files)
                == files_from(order::models(groups@), texts, encoding),
{
    let ghost all = order::models(groups@);
    let ghost mut texts: Seq<Result<String, LspError>> = Seq::empty();
    let mut files: Vec<LspFileEdit> = Vec::new();
    assert(all.take(0).len() == 0);
    assert(wire::views(files@) =~= Seq::<FileEditModel>::empty());
    for group in it: groups
        invariant
            order::models(it.seq()) == all,
            forall|path: &str| call_requires(*text_of, (path,)),
            texts.len() == it.index(),
            it.index() <= all.len(),
            forall|i: int|
                0 <= i < texts.len() ==> may_read(*text_of, all[i].0, #[trigger] texts[i]),
            files_from(all.take(it.index()), texts, encoding) == Ok::<Seq<FileEditModel>, Fault>(
                wire::views(files@),
            ),
    {
        let (file_path, edits) = group;
        let ghost before = texts;
        let ghost had = wire::views(files@);
        let ghost here = it.index();
        assert(all[here] == (file_path@, wire::views(edits@)));
        let read = text_of(file_path.as_str());
        proof {
            texts = texts.push(read);
            assert(may_read(*text_of, all[here].0, read));
            assert(all.take(here + 1).drop_last() =~= all.take(here));
            assert(texts.drop_last() =~= before);
        }
        let fitted_file = match read {
            Ok(text) => fit(file_path, edits.as_slice(), text.as_str(), encoding),
            Err(error) => Err(error),
        };
        match fitted_file {
            Ok(file) => {
                files.push(file);
                assert(wire::views(files@) =~= had.push(file@));
            },
            Err(error) => {
                proof {
                    let whole = texts + Seq::new(
                        (all.len() - texts.len()) as nat,
                        |i: int| read,
                    );
                    assert(whole.take(here) =~= before);
                    assert(whole[here] == read);
                    lemma_first_unfitted(all, whole, encoding, here, error@);
                    assert forall|i: int|
                        0 <= i < all.len() && files_from(
                            all.take(i),
                            whole.take(i),
                            encoding,
                        ) is Ok implies may_read(*text_of, all[i].0, #[trigger] whole[i]) by {
                        assert(i <= here);
                        assert(whole[i] == texts[i]);
                    }
                    assert(may_be_read(*text_of, all, whole, encoding));
                }
                return Err(error);
            },
        }
    }
    proof {
        assert(all.take(all.len() as int) =~= all);
        assert(may_be_read(*text_of, all, texts, encoding));
    }
    Ok(files)
}

/// What edits already read change, one entry per file, with every place in the editor's own units.
pub fn file_edits_of<F: Fn(&str) -> Result<String, LspError>>(
    entries: Vec<(String, Vec<Replacement>)>,
    repo_root: &str,
    encoding: PositionEncoding,
    text_of: &F,
) -> (files: Result<Vec<LspFileEdit>, LspError>)
    requires
        forall|path: &str| call_requires(*text_of, (path,)),
    ensures
        may_come_to(
            *text_of,
            Ok(order::models(entries@)),
            repo_root@,
            encoding,
            outcome_of(files),
        ),
        outcome_of(files) matches Ok(changed) ==> are_apart(changed),
{
    // By file, in the order the answer first names each one: the protocol lets one file
    // appear in several entries of an answer, and a caller wants it as one.
    let ghost all = order::models(entries@);
    let files = match by_file(entries, repo_root) {
        Ok(groups) => file_edits_in(groups, encoding, text_of),
        Err(error) => Err(error),
    };
    proof {
        law_what_is_changed_never_overlaps(
            *text_of,
            all,
            repo_root@,
            encoding,
            outcome_of(files),
        );
    }
    files
}

/// What a `textDocument/rename` answer changes, one entry per file, with every place in the
/// editor's own units.
///
/// A place in an answer is counted in the server's units against the text the server has, so
/// it is converted against that text: `text_of` hands it over for each file the answer names -
/// the copy the server was sent for a file that is open in it, and the file on disk for one
/// that is not, which is what a server reads a file it was never sent from.
///
/// Refused whole, rather than handed back in part, when the answer would do anything this
/// side cannot carry out as it was meant:
///
/// - edit a file outside the repo. A rename of a name the project only uses - a function of a
///   dependency, of the standard library - is one a server may well offer, and writing into
///   `~/.cargo/registry` is never what a person renaming something in their own repo meant.
/// - edit something that is not a file on disk at all.
/// - create, rename or delete a file. This client never said it could, so a server that asks
///   for one is not reading what it was told, and half of a rename that also moves a module
///   is a project that no longer builds.
/// - edit the same text of a file twice over, or a stretch that ends before it starts. The
///   protocol says a server's edits never do, and there is no telling what one that did meant.
pub fn file_edits_from<F: Fn(&str) -> Result<String, LspError>>(
    answer: &str,
    repo_root: &str,
    encoding: PositionEncoding,
    text_of: &F,
) -> (files: Result<Vec<LspFileEdit>, LspError>)
    requires
        forall|path: &str| call_requires(*text_of, (path,)),
    ensures
        answer@ == "null"@ ==> (files matches Ok(files) && files@.len() == 0),
        may_come_to(*text_of, entries_said(answer@), repo_root@, encoding, outcome_of(files)),
        outcome_of(files) matches Ok(changed) ==> are_apart(changed),
{
    match edits_by_uri(answer) {
        Ok(entries) => {
            let files = file_edits_of(entries, repo_root, encoding, text_of);
            proof {
                if answer@ == "null"@ {
                    assert(order::models(entries@).len() == 0);
                    assert(grouped(order::models(entries@), repo_root@) == Ok::<
                        Seq<(Seq<char>, Seq<ReplacementModel>)>,
                        Fault,
                    >(Seq::empty()));
                    assert(outcome_of(files) matches Ok(all) && all.len() == 0);
                }
            }
            files
        },
        Err(error) => Err(error),
    }
}

// ---------------------------------------------------------------------------------------------
// Code actions
// ---------------------------------------------------------------------------------------------

impl Ranked for LspCodeAction {
    type Model = ActionModel;

    open spec fn model(&self) -> ActionModel {
        self@
    }

    /// The actions to take belong ahead of the others.
    open spec fn behind(left: ActionModel, right: ActionModel) -> bool {
        !left.preferred && right.preferred
    }

    proof fn lemma_ranks(first: ActionModel, second: ActionModel, third: ActionModel) {
    }

    fn is_behind(&self, other: &Self) -> (behind: bool) {
        !self.preferred && other.preferred
    }
}

/// What an offer changes, as JSON, where it is one this side may carry out.
pub open spec fn edit_offered(offered: OfferedModel) -> Option<Seq<char>> {
    match offered {
        OfferedModel::Action { disabled: None, edit, .. } => edit,
        _ => None,
    }
}

/// An offer that comes to these files, as a caller is offered it: not at all where it may not be
/// carried out, is refused, or changes nothing.
pub open spec fn action_of(offered: OfferedModel, outcome: Result<Seq<FileEditModel>, Fault>) -> Option<
    ActionModel,
> {
    match (offered, outcome) {
        (
            OfferedModel::Action { title, kind, preferred, disabled: None, edit: Some(_) },
            Ok(files),
        ) => if files.len() > 0 {
            Some(ActionModel { title, kind, preferred: preferred == Some(true), files })
        } else {
            None
        },
        _ => None,
    }
}

/// Several offers that come to these files, as a caller is offered them.
pub open spec fn actions_of(
    offered: Seq<OfferedModel>,
    outcomes: Seq<Result<Seq<FileEditModel>, Fault>>,
) -> Seq<ActionModel>
    decreases offered.len(),
{
    if offered.len() == 0 {
        Seq::empty()
    } else {
        let before = actions_of(offered.drop_last(), outcomes.drop_last());
        match action_of(offered.last(), outcomes.last()) {
            Some(action) => before.push(action),
            None => before,
        }
    }
}

/// Whether these may be what offers come to, each that may be carried out.
pub open spec fn may_come_to_each<F: Fn(&str) -> Result<String, LspError>>(
    text_of: F,
    offered: Seq<OfferedModel>,
    repo_root: Seq<char>,
    encoding: PositionEncoding,
    outcomes: Seq<Result<Seq<FileEditModel>, Fault>>,
) -> bool {
    &&& outcomes.len() == offered.len()
    &&& forall|i: int|
        0 <= i < offered.len() ==> (edit_offered(offered[i]) matches Some(edit) ==> may_come_to(
            text_of,
            entries_said(edit),
            repo_root,
            encoding,
            #[trigger] outcomes[i],
        ))
}

/// Whether this may be what offers come to, the ones to take ahead of the others.
pub open spec fn may_offer<F: Fn(&str) -> Result<String, LspError>>(
    text_of: F,
    offered: Seq<OfferedModel>,
    repo_root: Seq<char>,
    encoding: PositionEncoding,
    actions: Seq<ActionModel>,
) -> bool {
    exists|outcomes: Seq<Result<Seq<FileEditModel>, Fault>>| #[trigger]
        may_come_to_each(text_of, offered, repo_root, encoding, outcomes) && actions
            == order::ranked::<LspCodeAction>(actions_of(offered, outcomes))
}

/// What one offer comes to, where it is one this side may carry out and it changes anything.
fn carried_out<F: Fn(&str) -> Result<String, LspError>>(
    offered: Offered,
    repo_root: &str,
    encoding: PositionEncoding,
    text_of: &F,
) -> (action: Option<LspCodeAction>)
    requires
        forall|path: &str| call_requires(*text_of, (path,)),
    ensures
        exists|outcome: Result<Seq<FileEditModel>, Fault>|
            (edit_offered(offered@) matches Some(edit) ==> may_come_to(
                *text_of,
                entries_said(edit),
                repo_root@,
                encoding,
                outcome,
            )) && wire::view_of(action) == #[trigger] action_of(offered@, outcome),
{
    let ghost none: Result<Seq<FileEditModel>, Fault> = Ok(Seq::empty());
    match offered {
        Offered::Command => {
            assert(action_of(offered@, none) is None);
            None
        },
        Offered::Action { title, kind, preferred, disabled, edit } => {
            if disabled.is_some() {
                assert(action_of(offered@, none) is None);
                return None;
            }
            let edit = match edit {
                Some(edit) => edit,
                None => {
                    assert(action_of(offered@, none) is None);
                    return None;
                },
            };
            let files = file_edits_from(edit.as_str(), repo_root, encoding, text_of);
            let ghost outcome = outcome_of(files);
            match files {
                Ok(files) => {
                    if files.len() == 0 {
                        assert(action_of(offered@, outcome) is None);
                        return None;
                    }
                    let preferred: bool = match preferred {
                        Some(preferred) => preferred,
                        None => false,
                    };
                    let action = LspCodeAction { title, kind, preferred, files };
                    assert(action@.files =~= wire::views(files@));
                    assert(Some(action@) == action_of(offered@, outcome));
                    Some(action)
                },
                Err(_) => {
                    assert(action_of(offered@, outcome) is None);
                    None
                },
            }
        },
    }
}

/// What offers come to that this side can carry out, the ones to take first - see [`may_offer`].
pub fn actions_from<F: Fn(&str) -> Result<String, LspError>>(
    offered: Vec<Offered>,
    repo_root: &str,
    encoding: PositionEncoding,
    text_of: &F,
) -> (actions: Vec<LspCodeAction>)
    requires
        forall|path: &str| call_requires(*text_of, (path,)),
    ensures
        may_offer(
            *text_of,
            wire::views(offered@),
            repo_root@,
            encoding,
            wire::views(actions@),
        ),
{
    let ghost all = wire::views(offered@);
    let ghost mut outcomes: Seq<Result<Seq<FileEditModel>, Fault>> = Seq::empty();
    let mut actions: Vec<LspCodeAction> = Vec::new();
    assert(all.take(0).len() == 0);
    assert(order::models(actions@) =~= Seq::<ActionModel>::empty());
    for offer in it: offered
        invariant
            wire::views(it.seq()) == all,
            forall|path: &str| call_requires(*text_of, (path,)),
            it.index() <= all.len(),
            may_come_to_each(*text_of, all.take(it.index()), repo_root@, encoding, outcomes),
            order::models(actions@) == actions_of(all.take(it.index()), outcomes),
    {
        let ghost here = it.index();
        let ghost before = outcomes;
        let ghost had = order::models(actions@);
        assert(all[here] == offer@);
        let action = carried_out(offer, repo_root, encoding, text_of);
        proof {
            let outcome = choose|outcome: Result<Seq<FileEditModel>, Fault>|
                (edit_offered(offer@) matches Some(edit) ==> may_come_to(
                    *text_of,
                    entries_said(edit),
                    repo_root@,
                    encoding,
                    outcome,
                )) && wire::view_of(action) == #[trigger] action_of(offer@, outcome);
            outcomes = outcomes.push(outcome);
            let shown = all.take(here + 1);
            assert(shown.drop_last() =~= all.take(here));
            assert(outcomes.drop_last() =~= before);
            assert forall|i: int| 0 <= i < shown.len() implies (edit_offered(
                shown[i],
            ) matches Some(edit) ==> may_come_to(
                *text_of,
                entries_said(edit),
                repo_root@,
                encoding,
                #[trigger] outcomes[i],
            )) by {
                if i < here {
                    assert(shown[i] == all.take(here)[i]);
                    assert(outcomes[i] == before[i]);
                }
            }
        }
        if let Some(action) = action {
            actions.push(action);
            assert(order::models(actions@) =~= had.push(action@));
        }
    }
    assert(all.take(all.len() as int) =~= all);
    let sorted = order::sort(actions);
    assert(order::models(sorted@) =~= wire::views(sorted@));
    sorted
}

/// What a code action answer offers that this side can carry out, the preferred ones first.
///
/// Left out rather than offered: an action that is only a command for the server to run - this
/// client runs none - one the server says is disabled, and one whose edit could not be carried
/// out as meant, for the reasons [`file_edits_from`] gives. An action picked from a list that
/// then refuses is worse than one never offered.
pub fn code_actions_from<F: Fn(&str) -> Result<String, LspError>>(
    answer: &str,
    repo_root: &str,
    encoding: PositionEncoding,
    text_of: &F,
) -> (actions: Result<Vec<LspCodeAction>, LspError>)
    requires
        forall|path: &str| call_requires(*text_of, (path,)),
    ensures
        answer@ == "null"@ ==> (actions matches Ok(actions) && actions@.len() == 0),
        match (if wire::is_too_long(answer@) {
            None
        } else {
            wire::offered_in(answer@)
        }) {
            None => actions matches Err(error) && error@ == answers::unreadable(
                Answer::CodeAction,
            ),
            Some(None) => actions matches Ok(actions) && actions@.len() == 0,
            Some(Some(offered)) => actions matches Ok(actions) && may_offer(
                *text_of,
                offered,
                repo_root@,
                encoding,
                wire::views(actions@),
            ),
        },
{
    proof {
        wire::lemma_nothing_is_short();
    }
    if wire::too_long(answer) {
        return Err(LspError::Unreadable { answer: Answer::CodeAction });
    }
    match wire::read_offered(answer) {
        Ok(Some(offered)) => Ok(actions_from(offered, repo_root, encoding, text_of)),
        Ok(None) => Ok(Vec::new()),
        Err(_) => Err(LspError::Unreadable { answer: Answer::CodeAction }),
    }
}

// ---------------------------------------------------------------------------------------------
// What changes promise
// ---------------------------------------------------------------------------------------------

/// An answer that would create, rename or delete a file anywhere in it is refused whole.
pub proof fn law_a_moved_file_refuses_the_lot(changes: Seq<ChangeModel>, at: int)
    requires
        0 <= at < changes.len(),
        changes[at] == ChangeModel::MovesAFile,
    ensures
        entries_in(changes) == Err::<Seq<(Seq<char>, Seq<ReplacementModel>)>, Fault>(
            Fault::MovesFiles,
        ),
    decreases changes.len(),
{
    lemma_only_moved_files_are_refused(changes.drop_last());
    if at < changes.len() - 1 {
        law_a_moved_file_refuses_the_lot(changes.drop_last(), at);
    }
}

proof fn lemma_only_moved_files_are_refused(changes: Seq<ChangeModel>)
    ensures
        entries_in(changes) matches Err(fault) ==> fault == Fault::MovesFiles,
    decreases changes.len(),
{
    if changes.len() > 0 {
        lemma_only_moved_files_are_refused(changes.drop_last());
    }
}

/// An answer that would edit anything that is no file of the repo is refused whole, however much
/// of the rest of it could be carried out.
pub proof fn law_an_edit_outside_the_repo_refuses_the_lot<
    F: Fn(&str) -> Result<String, LspError>,
>(
    text_of: F,
    entries: Seq<(Seq<char>, Seq<ReplacementModel>)>,
    repo_root: Seq<char>,
    encoding: PositionEncoding,
    outcome: Result<Seq<FileEditModel>, Fault>,
    at: int,
)
    requires
        0 <= at < entries.len(),
        file_of(entries[at].0, repo_root) is Err,
        may_come_to(text_of, Ok(entries), repo_root, encoding, outcome),
    ensures
        outcome is Err,
{
    lemma_one_stranger_is_enough(entries, repo_root, at);
}

proof fn lemma_one_stranger_is_enough(
    entries: Seq<(Seq<char>, Seq<ReplacementModel>)>,
    repo_root: Seq<char>,
    at: int,
)
    requires
        0 <= at < entries.len(),
        file_of(entries[at].0, repo_root) is Err,
    ensures
        grouped(entries, repo_root) is Err,
    decreases entries.len(),
{
    if at < entries.len() - 1 {
        lemma_one_stranger_is_enough(entries.drop_last(), repo_root, at);
    }
}

/// Where a file is known is where it is, and nowhere ahead of that.
proof fn lemma_known_at(
    groups: Seq<(Seq<char>, Seq<ReplacementModel>)>,
    file_path: Seq<char>,
    from: int,
)
    requires
        0 <= from <= groups.len(),
    ensures
        match known_at(groups, file_path, from) {
            Some(at) => from <= at < groups.len() && groups[at].0 == file_path,
            None => forall|i: int|
                from <= i < groups.len() ==> (#[trigger] groups[i]).0 != file_path,
        },
    decreases groups.len() - from,
{
    if from < groups.len() && groups[from].0 != file_path {
        lemma_known_at(groups, file_path, from + 1);
    }
}

/// Every edit an answer makes to a file, in the order of the answer.
pub open spec fn edits_to(
    entries: Seq<(Seq<char>, Seq<ReplacementModel>)>,
    repo_root: Seq<char>,
    file_path: Seq<char>,
) -> Seq<ReplacementModel>
    decreases entries.len(),
{
    if entries.len() == 0 {
        Seq::empty()
    } else {
        let before = edits_to(entries.drop_last(), repo_root, file_path);
        if file_of(entries.last().0, repo_root) == Ok::<Seq<char>, Fault>(file_path) {
            before + entries.last().1
        } else {
            before
        }
    }
}

/// Whether an answer names a file.
pub open spec fn names(
    entries: Seq<(Seq<char>, Seq<ReplacementModel>)>,
    repo_root: Seq<char>,
    file_path: Seq<char>,
) -> bool {
    exists|i: int|
        0 <= i < entries.len() && file_of((#[trigger] entries[i]).0, repo_root) == Ok::<
            Seq<char>,
            Fault,
        >(file_path)
}

proof fn lemma_edits_to_a_stranger(
    entries: Seq<(Seq<char>, Seq<ReplacementModel>)>,
    repo_root: Seq<char>,
    file_path: Seq<char>,
)
    requires
        !names(entries, repo_root, file_path),
    ensures
        edits_to(entries, repo_root, file_path) == Seq::<ReplacementModel>::empty(),
    decreases entries.len(),
{
    if entries.len() > 0 {
        let fewer = entries.drop_last();
        assert(entries[entries.len() - 1] == entries.last());
        assert(!names(fewer, repo_root, file_path)) by {
            if names(fewer, repo_root, file_path) {
                let i = choose|i: int|
                    0 <= i < fewer.len() && file_of((#[trigger] fewer[i]).0, repo_root) == Ok::<
                        Seq<char>,
                        Fault,
                    >(file_path);
                assert(entries[i] == fewer[i]);
            }
        }
        lemma_edits_to_a_stranger(fewer, repo_root, file_path);
    }
}

/// An answer is one entry per file it names, and no other, each with everything the answer does to
/// that file in the order of the answer.
pub proof fn law_an_answer_is_one_entry_per_file(
    entries: Seq<(Seq<char>, Seq<ReplacementModel>)>,
    repo_root: Seq<char>,
)
    ensures
        grouped(entries, repo_root) matches Ok(groups) ==> {
            &&& forall|i: int, j: int|
                0 <= i < j < groups.len() ==> (#[trigger] groups[i]).0 != (#[trigger] groups[j]).0
            &&& forall|i: int|
                0 <= i < groups.len() ==> names(entries, repo_root, (#[trigger] groups[i]).0)
            &&& forall|i: int|
                0 <= i < groups.len() ==> (#[trigger] groups[i]).1 == edits_to(
                    entries,
                    repo_root,
                    groups[i].0,
                )
            &&& forall|file_path: Seq<char>|
                names(entries, repo_root, file_path) ==> known_at(groups, file_path, 0) is Some
        },
    decreases entries.len(),
{
    if entries.len() == 0 {
    } else if let Ok(groups) = grouped(entries, repo_root) {
        let fewer = entries.drop_last();
        law_an_answer_is_one_entry_per_file(fewer, repo_root);
        let before = grouped(fewer, repo_root)->Ok_0;
        let here = file_of(entries.last().0, repo_root)->Ok_0;
        lemma_known_at(before, here, 0);
        lemma_joined(entries, repo_root, before, here);
    }
}

proof fn lemma_joined(
    entries: Seq<(Seq<char>, Seq<ReplacementModel>)>,
    repo_root: Seq<char>,
    before: Seq<(Seq<char>, Seq<ReplacementModel>)>,
    here: Seq<char>,
)
    requires
        entries.len() > 0,
        file_of(entries.last().0, repo_root) == Ok::<Seq<char>, Fault>(here),
        forall|i: int, j: int|
            0 <= i < j < before.len() ==> (#[trigger] before[i]).0 != (#[trigger] before[j]).0,
        forall|i: int|
            0 <= i < before.len() ==> names(
                entries.drop_last(),
                repo_root,
                (#[trigger] before[i]).0,
            ),
        forall|i: int|
            0 <= i < before.len() ==> (#[trigger] before[i]).1 == edits_to(
                entries.drop_last(),
                repo_root,
                before[i].0,
            ),
        forall|file_path: Seq<char>|
            names(entries.drop_last(), repo_root, file_path) ==> known_at(
                before,
                file_path,
                0,
            ) is Some,
    ensures
        ({
            let groups = joined_in(before, here, entries.last().1);
            &&& forall|i: int, j: int|
                0 <= i < j < groups.len() ==> (#[trigger] groups[i]).0 != (#[trigger] groups[j]).0
            &&& forall|i: int|
                0 <= i < groups.len() ==> names(entries, repo_root, (#[trigger] groups[i]).0)
            &&& forall|i: int|
                0 <= i < groups.len() ==> (#[trigger] groups[i]).1 == edits_to(
                    entries,
                    repo_root,
                    groups[i].0,
                )
            &&& forall|file_path: Seq<char>|
                names(entries, repo_root, file_path) ==> known_at(groups, file_path, 0) is Some
        }),
{
    let fewer = entries.drop_last();
    let groups = joined_in(before, here, entries.last().1);
    lemma_known_at(before, here, 0);
    assert(entries[entries.len() - 1] == entries.last());
    assert(names(entries, repo_root, here));
    assert forall|file_path: Seq<char>| names(fewer, repo_root, file_path) implies names(
        entries,
        repo_root,
        file_path,
    ) by {
        let i = choose|i: int|
            0 <= i < fewer.len() && file_of((#[trigger] fewer[i]).0, repo_root) == Ok::<
                Seq<char>,
                Fault,
            >(file_path);
        assert(entries[i] == fewer[i]);
    }
    if known_at(before, here, 0) is None {
        if names(fewer, repo_root, here) {
            assert(known_at(before, here, 0) is Some);
        }
        lemma_edits_to_a_stranger(fewer, repo_root, here);
        assert(edits_to(entries, repo_root, here) =~= entries.last().1);
    }
    assert forall|i: int| 0 <= i < groups.len() implies names(
        entries,
        repo_root,
        (#[trigger] groups[i]).0,
    ) && groups[i].1 == edits_to(entries, repo_root, groups[i].0) by {
        if i < before.len() {
            assert(groups[i].0 == before[i].0);
            assert(names(fewer, repo_root, before[i].0));
        }
    }
    assert forall|file_path: Seq<char>| names(entries, repo_root, file_path) implies known_at(
        groups,
        file_path,
        0,
    ) is Some by {
        lemma_known_at(groups, file_path, 0);
        if known_at(groups, file_path, 0) is None {
            if file_path == here {
                match known_at(before, here, 0) {
                    Some(at) => {
                        assert(groups[at].0 == here);
                    },
                    None => {
                        assert(groups[before.len() as int].0 == here);
                    },
                }
            } else {
                let i = choose|i: int|
                    0 <= i < entries.len() && file_of((#[trigger] entries[i]).0, repo_root)
                        == Ok::<Seq<char>, Fault>(file_path);
                assert(i < fewer.len());
                assert(fewer[i] == entries[i]);
                assert(names(fewer, repo_root, file_path));
                lemma_known_at(before, file_path, 0);
                let at = known_at(before, file_path, 0)->0;
                assert(groups[at].0 == before[at].0);
            }
        }
    }
}

proof fn lemma_files_are_those_of_the_groups(
    groups: Seq<(Seq<char>, Seq<ReplacementModel>)>,
    texts: Seq<Result<String, LspError>>,
    encoding: PositionEncoding,
)
    requires
        texts.len() == groups.len(),
    ensures
        files_from(groups, texts, encoding) matches Ok(files) ==> {
            &&& files.len() == groups.len()
            &&& forall|i: int|
                0 <= i < files.len() ==> (#[trigger] files[i]).file_path == groups[i].0
                    && edits::never_overlap(files[i].edits)
        },
    decreases groups.len(),
{
    if groups.len() > 0 {
        lemma_files_are_those_of_the_groups(groups.drop_last(), texts.drop_last(), encoding);
        if let Ok(text) = texts.last() {
            let bytes = encode_utf8(text@);
            encode_utf8_valid_utf8(text@);
            if let Ok(edits) = answers::edits_named(bytes, groups.last().1, encoding) {
                edits::law_edits_that_sit_in_a_text_never_overlap(bytes, edits);
            }
        }
    }
}

/// What an answer that is not refused changes: no file twice, no file it does not name - and those
/// are files of the repo, by their path in it - and in each of them edits in the order they sit in
/// it that never overlap.
pub proof fn law_what_is_changed_never_overlaps<F: Fn(&str) -> Result<String, LspError>>(
    text_of: F,
    entries: Seq<(Seq<char>, Seq<ReplacementModel>)>,
    repo_root: Seq<char>,
    encoding: PositionEncoding,
    outcome: Result<Seq<FileEditModel>, Fault>,
)
    requires
        may_come_to(text_of, Ok(entries), repo_root, encoding, outcome),
    ensures
        outcome matches Ok(files) ==> {
            &&& are_apart(files)
            &&& forall|i: int|
                0 <= i < files.len() ==> names(
                    entries,
                    repo_root,
                    (#[trigger] files[i]).file_path,
                )
        },
{
    if let Ok(files) = outcome {
        let groups = grouped(entries, repo_root)->Ok_0;
        let texts = choose|texts: Seq<Result<String, LspError>>| #[trigger]
            may_be_read(text_of, groups, texts, encoding) && outcome == files_from(
                groups,
                texts,
                encoding,
            );
        lemma_files_are_those_of_the_groups(groups, texts, encoding);
        law_an_answer_is_one_entry_per_file(entries, repo_root);
        assert forall|i: int, j: int| 0 <= i < j < files.len() implies (
        #[trigger] files[i]).file_path != (#[trigger] files[j]).file_path by {
            assert(groups[i].0 != groups[j].0);
        }
        assert forall|i: int| 0 <= i < files.len() implies names(
            entries,
            repo_root,
            (#[trigger] files[i]).file_path,
        ) by {
            assert(names(entries, repo_root, groups[i].0));
        }
    }
}

/// Of several code actions the ones to take come first, and otherwise they come in the order the
/// server offered them in.
pub proof fn law_the_actions_to_take_come_first(actions: Seq<ActionModel>, one: ActionModel)
    ensures
        forall|i: int, j: int|
            0 <= i < j < actions.len() && (#[trigger] order::ranked::<LspCodeAction>(
                actions,
            )[j]).preferred ==> (#[trigger] order::ranked::<LspCodeAction>(actions)[i]).preferred,
        order::level_with::<LspCodeAction>(order::ranked::<LspCodeAction>(actions), one)
            == order::level_with::<LspCodeAction>(actions, one),
{
    order::law_order_keeps_everything::<LspCodeAction>(actions);
    order::law_order_is_kept::<LspCodeAction>(actions);
    order::law_order_leaves_equals_as_they_came::<LspCodeAction>(actions, one);
}

proof fn lemma_actions_are_of_offers(
    offered: Seq<OfferedModel>,
    outcomes: Seq<Result<Seq<FileEditModel>, Fault>>,
    action: ActionModel,
)
    requires
        outcomes.len() == offered.len(),
    ensures
        actions_of(offered, outcomes).contains(action) <==> exists|i: int|
            0 <= i < offered.len() && #[trigger] action_of(offered[i], outcomes[i]) == Some(action),
    decreases offered.len(),
{
    if offered.len() > 0 {
        let fewer = offered.drop_last();
        let others = outcomes.drop_last();
        let last = offered.len() - 1;
        lemma_actions_are_of_offers(fewer, others, action);
        assert forall|i: int| 0 <= i < last implies action_of(fewer[i], others[i]) == action_of(
            offered[i],
            outcomes[i],
        ) by {}
        let before = actions_of(fewer, others);
        if let Some(offer) = action_of(offered[last], outcomes[last]) {
            assert(before.push(offer)[before.len() as int] == offer);
            assert(before.push(offer).drop_last() =~= before);
            if before.contains(action) {
                let at = choose|at: int| 0 <= at < before.len() && before[at] == action;
                assert(before.push(offer)[at] == action);
            }
        }
        if exists|i: int|
            0 <= i < offered.len() && #[trigger] action_of(offered[i], outcomes[i]) == Some(
                action,
            ) {
            let i = choose|i: int|
                0 <= i < offered.len() && #[trigger] action_of(offered[i], outcomes[i]) == Some(
                    action,
                );
            if i < last {
                assert(action_of(fewer[i], others[i]) == Some(action));
            }
        }
    }
}

/// What is offered is exactly what can be carried out: an action that is not disabled, with an edit
/// in it that fits and changes something. Nothing else is offered, and none of these is left out.
pub proof fn law_only_what_can_be_carried_out_is_offered(
    offered: Seq<OfferedModel>,
    outcomes: Seq<Result<Seq<FileEditModel>, Fault>>,
    action: ActionModel,
    offer: OfferedModel,
    outcome: Result<Seq<FileEditModel>, Fault>,
)
    requires
        outcomes.len() == offered.len(),
    ensures
        order::ranked::<LspCodeAction>(actions_of(offered, outcomes)).contains(action)
            <==> exists|i: int|
            0 <= i < offered.len() && #[trigger] action_of(offered[i], outcomes[i]) == Some(action),
        action_of(offer, outcome) is Some <==> offer is Action && offer->disabled is None
            && offer->edit is Some && (outcome matches Ok(files) && files.len() > 0),
        action_of(offer, outcome) matches Some(carried) ==> outcome == Ok::<
            Seq<FileEditModel>,
            Fault,
        >(carried.files),
{
    broadcast use vstd::seq_lib::group_to_multiset_ensures;

    let actions = actions_of(offered, outcomes);
    lemma_actions_are_of_offers(offered, outcomes, action);
    order::law_order_keeps_everything::<LspCodeAction>(actions);
    let put = order::ranked::<LspCodeAction>(actions);
    assert(put.contains(action) <==> put.to_multiset().count(action) > 0);
    assert(actions.contains(action) <==> actions.to_multiset().count(action) > 0);
}

/// What is offered changes files the way a rename does: no file twice, and edits that never overlap.
pub proof fn law_what_is_offered_never_overlaps<F: Fn(&str) -> Result<String, LspError>>(
    text_of: F,
    offered: Seq<OfferedModel>,
    repo_root: Seq<char>,
    encoding: PositionEncoding,
    actions: Seq<ActionModel>,
)
    requires
        may_offer(text_of, offered, repo_root, encoding, actions),
    ensures
        forall|i: int| 0 <= i < actions.len() ==> are_apart((#[trigger] actions[i]).files),
{
    let outcomes = choose|outcomes: Seq<Result<Seq<FileEditModel>, Fault>>| #[trigger]
        may_come_to_each(text_of, offered, repo_root, encoding, outcomes) && actions
            == order::ranked::<LspCodeAction>(actions_of(offered, outcomes));
    assert forall|i: int| 0 <= i < actions.len() implies are_apart(
        (#[trigger] actions[i]).files,
    ) by {
        let action = actions[i];
        assert(actions.contains(action));
        law_only_what_can_be_carried_out_is_offered(
            offered,
            outcomes,
            action,
            OfferedModel::Command,
            Err(Fault::MovesFiles),
        );
        let at = choose|at: int|
            0 <= at < offered.len() && #[trigger] action_of(offered[at], outcomes[at]) == Some(
                action,
            );
        let edit = edit_offered(offered[at])->0;
        assert(may_come_to(text_of, entries_said(edit), repo_root, encoding, outcomes[at]));
        if let Ok(entries) = entries_said(edit) {
            law_what_is_changed_never_overlaps(
                text_of,
                entries,
                repo_root,
                encoding,
                outcomes[at],
            );
        }
    }
}

/// Entries that move no file come to one entry for each document, in the order of the answer: the URI
/// of that document with every edit to it, in order.
pub proof fn law_every_document_keeps_all_its_edits(changes: Seq<ChangeModel>)
    requires
        forall|i: int| 0 <= i < changes.len() ==> #[trigger] changes[i] is Edits,
    ensures
        entries_in(changes) matches Ok(entries) && entries.len() == changes.len() && forall|i: int|
            0 <= i < changes.len() ==> #[trigger] changes[i] == ChangeModel::Edits(
                entries[i].0,
                entries[i].1,
            ),
    decreases changes.len(),
{
    if changes.len() > 0 {
        let fewer = changes.drop_last();
        assert(forall|i: int| 0 <= i < fewer.len() ==> fewer[i] == changes[i]);
        law_every_document_keeps_all_its_edits(fewer);
        assert(changes[changes.len() - 1] is Edits);
        let entries = entries_in(changes)->Ok_0;
        let before = entries_in(fewer)->Ok_0;
        assert forall|i: int| 0 <= i < changes.len() implies #[trigger] changes[i]
            == ChangeModel::Edits(entries[i].0, entries[i].1) by {
            if i < fewer.len() {
                assert(fewer[i] == changes[i]);
                assert(entries[i] == before[i]);
            }
        }
    }
}

proof fn lemma_total_from(
    entries: Seq<(Seq<char>, Seq<ReplacementModel>)>,
    at: int,
    more: Seq<ReplacementModel>,
)
    requires
        0 <= at < entries.len(),
    ensures
        entries.update(at, (entries[at].0, entries[at].1 + more)).fold_left(
            0int,
            |total: int, entry: (Seq<char>, Seq<ReplacementModel>)| total + entry.1.len(),
        ) == entries.fold_left(
            0int,
            |total: int, entry: (Seq<char>, Seq<ReplacementModel>)| total + entry.1.len(),
        ) + more.len(),
    decreases entries.len(),
{
    let joined = entries.update(at, (entries[at].0, entries[at].1 + more));
    if at < entries.len() - 1 {
        let fewer = entries.drop_last();
        lemma_total_from(fewer, at, more);
        assert(joined.drop_last() =~= fewer.update(at, (fewer[at].0, fewer[at].1 + more)));
    } else {
        assert(joined.drop_last() =~= entries.drop_last());
    }
}

/// Grouping an answer by file leaves no edit out and adds none: there are as many over all the files
/// as over all the entries.
pub proof fn law_every_edit_is_to_some_file(
    entries: Seq<(Seq<char>, Seq<ReplacementModel>)>,
    repo_root: Seq<char>,
)
    ensures
        grouped(entries, repo_root) matches Ok(groups) ==> groups.fold_left(
            0int,
            |total: int, group: (Seq<char>, Seq<ReplacementModel>)| total + group.1.len(),
        ) == entries.fold_left(
            0int,
            |total: int, entry: (Seq<char>, Seq<ReplacementModel>)| total + entry.1.len(),
        ),
    decreases entries.len(),
{
    if entries.len() > 0 && grouped(entries, repo_root) is Ok {
        let fewer = entries.drop_last();
        law_every_edit_is_to_some_file(fewer, repo_root);
        let before = grouped(fewer, repo_root)->Ok_0;
        let here = file_of(entries.last().0, repo_root)->Ok_0;
        let groups = joined_in(before, here, entries.last().1);
        lemma_known_at(before, here, 0);
        match known_at(before, here, 0) {
            Some(at) => {
                lemma_total_from(before, at, entries.last().1);
            },
            None => {
                assert(groups.drop_last() =~= before);
            },
        }
    }
}

proof fn lemma_as_many_fitted(
    groups: Seq<(Seq<char>, Seq<ReplacementModel>)>,
    texts: Seq<Result<String, LspError>>,
    encoding: PositionEncoding,
)
    requires
        texts.len() == groups.len(),
    ensures
        files_from(groups, texts, encoding) matches Ok(files) ==> files.fold_left(
            0int,
            |total: int, file: FileEditModel| total + file.edits.len(),
        ) == groups.fold_left(
            0int,
            |total: int, group: (Seq<char>, Seq<ReplacementModel>)| total + group.1.len(),
        ),
    decreases groups.len(),
{
    if groups.len() > 0 && files_from(groups, texts, encoding) is Ok {
        let fewer = groups.drop_last();
        lemma_as_many_fitted(fewer, texts.drop_last(), encoding);
        let files = files_from(groups, texts, encoding)->Ok_0;
        let before = files_from(fewer, texts.drop_last(), encoding)->Ok_0;
        assert(files.drop_last() =~= before);
        let bytes = encode_utf8(texts.last()->Ok_0@);
        let edits = answers::edits_named(bytes, groups.last().1, encoding)->Ok_0;
        answers::law_edits_are_named_one_for_one(bytes, groups.last().1, encoding);
        order::law_order_keeps_everything::<edits::Sitting>(edits);
    }
}

/// As many edits are handed back over all the files as there are edits in the documents of an answer.
pub proof fn law_as_many_edits_as_the_answer_has<F: Fn(&str) -> Result<String, LspError>>(
    text_of: F,
    changes: Seq<ChangeModel>,
    repo_root: Seq<char>,
    encoding: PositionEncoding,
    outcome: Result<Seq<FileEditModel>, Fault>,
)
    requires
        may_come_to(text_of, entries_in(changes), repo_root, encoding, outcome),
    ensures
        outcome matches Ok(files) ==> files.fold_left(
            0int,
            |total: int, file: FileEditModel| total + file.edits.len(),
        ) == changes.fold_left(
            0int,
            |total: int, change: ChangeModel|
                total + match change {
                    ChangeModel::Edits(_, edits) => edits.len() as int,
                    ChangeModel::MovesAFile => 0int,
                },
        ),
{
    if outcome is Ok {
        let entries = entries_in(changes)->Ok_0;
        let groups = grouped(entries, repo_root)->Ok_0;
        let texts = choose|texts: Seq<Result<String, LspError>>| #[trigger]
            may_be_read(text_of, groups, texts, encoding) && outcome == files_from(
                groups,
                texts,
                encoding,
            );
        lemma_as_many_fitted(groups, texts, encoding);
        law_every_edit_is_to_some_file(entries, repo_root);
        lemma_as_many_in_entries(changes);
    }
}

proof fn lemma_as_many_in_entries(changes: Seq<ChangeModel>)
    ensures
        entries_in(changes) matches Ok(entries) ==> entries.fold_left(
            0int,
            |total: int, entry: (Seq<char>, Seq<ReplacementModel>)| total + entry.1.len(),
        ) == changes.fold_left(
            0int,
            |total: int, change: ChangeModel|
                total + match change {
                    ChangeModel::Edits(_, edits) => edits.len() as int,
                    ChangeModel::MovesAFile => 0int,
                },
        ),
    decreases changes.len(),
{
    if changes.len() > 0 && entries_in(changes) is Ok {
        lemma_as_many_in_entries(changes.drop_last());
        let entries = entries_in(changes)->Ok_0;
        assert(entries.drop_last() =~= entries_in(changes.drop_last())->Ok_0);
    }
}

/// Files come in the order an answer first names them: whatever names a file is behind something that
/// names each of the files ahead of it.
pub proof fn law_files_come_in_the_order_they_are_first_named(
    entries: Seq<(Seq<char>, Seq<ReplacementModel>)>,
    repo_root: Seq<char>,
    i: int,
    j: int,
    at: int,
)
    requires
        grouped(entries, repo_root) is Ok,
        0 <= i < j < grouped(entries, repo_root)->Ok_0.len(),
        0 <= at < entries.len(),
        file_of(entries[at].0, repo_root) == Ok::<Seq<char>, Fault>(
            grouped(entries, repo_root)->Ok_0[j].0,
        ),
    ensures
        exists|ahead: int|
            0 <= ahead < at && file_of((#[trigger] entries[ahead]).0, repo_root) == Ok::<
                Seq<char>,
                Fault,
            >(grouped(entries, repo_root)->Ok_0[i].0),
    decreases entries.len(),
{
    let fewer = entries.drop_last();
    let groups = grouped(entries, repo_root)->Ok_0;
    let before = grouped(fewer, repo_root)->Ok_0;
    let here = file_of(entries.last().0, repo_root)->Ok_0;
    lemma_known_at(before, here, 0);
    assert forall|k: int| 0 <= k < before.len() implies groups[k].0 == before[k].0 by {}
    if at < fewer.len() {
        assert(fewer[at] == entries[at]);
        if j < before.len() {
            law_files_come_in_the_order_they_are_first_named(fewer, repo_root, i, j, at);
            let ahead = choose|ahead: int|
                0 <= ahead < at && file_of((#[trigger] fewer[ahead]).0, repo_root) == Ok::<
                    Seq<char>,
                    Fault,
                >(before[i].0);
            assert(entries[ahead] == fewer[ahead]);
        } else {
            law_an_answer_is_one_entry_per_file(fewer, repo_root);
            assert(names(fewer, repo_root, here));
            assert(known_at(before, here, 0) is Some);
        }
    } else {
        law_an_answer_is_one_entry_per_file(fewer, repo_root);
        assert(names(fewer, repo_root, before[i].0));
        let ahead = choose|ahead: int|
            0 <= ahead < fewer.len() && file_of((#[trigger] fewer[ahead]).0, repo_root) == Ok::<
                Seq<char>,
                Fault,
            >(before[i].0);
        assert(entries[ahead] == fewer[ahead]);
    }
}

/// A document is a file of the repo where its URI names a path inside the repo, by what is left of
/// that path. One that names no path is refused for the URI, and one outside the repo for the path.
pub proof fn law_a_document_is_a_file_of_the_repo(uri: Seq<char>, repo_root: Seq<char>)
    ensures
        uris::path_named(encode_utf8(uri)) is None ==> file_of(uri, repo_root) == Err::<
            Seq<char>,
            Fault,
        >(Fault::NoFileOnDisk { uri }),
        uris::path_named(encode_utf8(uri)) matches Some(path) ==> {
            &&& paths::relative_to(path, repo_root) matches Some(left) ==> file_of(uri, repo_root)
                == Ok::<Seq<char>, Fault>(left)
            &&& paths::relative_to(path, repo_root) is None ==> file_of(uri, repo_root) == Err::<
                Seq<char>,
                Fault,
            >(Fault::OutsideTheRepo { path })
        },
{
}

proof fn lemma_each_file_is_fitted(
    groups: Seq<(Seq<char>, Seq<ReplacementModel>)>,
    texts: Seq<Result<String, LspError>>,
    encoding: PositionEncoding,
)
    requires
        texts.len() == groups.len(),
    ensures
        files_from(groups, texts, encoding) is Ok ==> files_from(
            groups,
            texts,
            encoding,
        )->Ok_0.len() == groups.len(),
        files_from(groups, texts, encoding) is Ok ==> forall|i: int|
            0 <= i < groups.len() ==> (#[trigger] texts[i]) is Ok && fitted(
                groups[i],
                texts[i]->Ok_0@,
                encoding,
            ) == Ok::<FileEditModel, Fault>(files_from(groups, texts, encoding)->Ok_0[i]),
    decreases groups.len(),
{
    if groups.len() > 0 && files_from(groups, texts, encoding) is Ok {
        let fewer = groups.drop_last();
        let rest = texts.drop_last();
        lemma_each_file_is_fitted(fewer, rest, encoding);
        let before = files_from(fewer, rest, encoding)->Ok_0;
        let files = files_from(groups, texts, encoding)->Ok_0;
        let last = read_and_fitted(groups.last(), texts.last(), encoding);
        assert(last is Ok);
        assert(files == before.push(last->Ok_0));
        assert(files.len() == groups.len());
        assert forall|i: int| 0 <= i < groups.len() implies (#[trigger] texts[i]) is Ok && fitted(
            groups[i],
            texts[i]->Ok_0@,
            encoding,
        ) == Ok::<FileEditModel, Fault>(files[i]) by {
            if i < fewer.len() {
                assert(files[i] == before[i]);
                assert(fewer[i] == groups[i] && rest[i] == texts[i]);
            }
        }
    }
}

/// What is handed back of a file is every edit the answer makes to it: each of them is one of the
/// answer's, with its text, between the places it names in the text that was read for that file, and
/// there are as many. Put into that text they come to what the answer's own come to.
pub proof fn law_a_file_is_changed_as_the_answer_says<F: Fn(&str) -> Result<String, LspError>>(
    text_of: F,
    entries: Seq<(Seq<char>, Seq<ReplacementModel>)>,
    repo_root: Seq<char>,
    encoding: PositionEncoding,
    outcome: Result<Seq<FileEditModel>, Fault>,
    at: int,
)
    requires
        may_come_to(text_of, Ok(entries), repo_root, encoding, outcome),
        outcome is Ok,
        0 <= at < outcome->Ok_0.len(),
    ensures
        exists|text: Result<String, LspError>|
            {
                let file = outcome->Ok_0[at];
                let said = edits_to(entries, repo_root, file.file_path);
                let bytes = encode_utf8(text->Ok_0@);
                &&& #[trigger] may_read(text_of, outcome->Ok_0[at].file_path, text)
                &&& text is Ok
                &&& answers::edits_named(bytes, said, encoding) matches Ok(named)
                    && file.edits.to_multiset() == named.to_multiset() && edits::ordered_spans(
                    bytes,
                    file.edits,
                ) == edits::ordered_spans(bytes, named)
            },
{
    let files = outcome->Ok_0;
    let groups = grouped(entries, repo_root)->Ok_0;
    let texts = choose|texts: Seq<Result<String, LspError>>| #[trigger]
        may_be_read(text_of, groups, texts, encoding) && outcome == files_from(
            groups,
            texts,
            encoding,
        );
    lemma_each_file_is_fitted(groups, texts, encoding);
    law_an_answer_is_one_entry_per_file(entries, repo_root);
    lemma_ahead_is_fitted(groups, texts, encoding, at);
    assert(texts[at] is Ok);
    assert(fitted(groups[at], texts[at]->Ok_0@, encoding) == Ok::<FileEditModel, Fault>(files[at]));
    assert(may_read(text_of, groups[at].0, texts[at]));
    let bytes = encode_utf8(texts[at]->Ok_0@);
    encode_utf8_valid_utf8(texts[at]->Ok_0@);
    let named = answers::edits_named(bytes, groups[at].1, encoding)->Ok_0;
    edits::law_edits_that_sit_in_a_text_never_overlap(bytes, named);
    edits::law_edits_in_place_come_to_the_same(bytes, named);
    assert(groups[at].1 == edits_to(entries, repo_root, groups[at].0));
    assert(may_read(text_of, files[at].file_path, texts[at]));
}

proof fn lemma_ahead_is_fitted(
    groups: Seq<(Seq<char>, Seq<ReplacementModel>)>,
    texts: Seq<Result<String, LspError>>,
    encoding: PositionEncoding,
    at: int,
)
    requires
        texts.len() == groups.len(),
        files_from(groups, texts, encoding) is Ok,
        0 <= at <= groups.len(),
    ensures
        files_from(groups.take(at), texts.take(at), encoding) is Ok,
    decreases groups.len(),
{
    if at < groups.len() {
        let fewer = groups.drop_last();
        let rest = texts.drop_last();
        lemma_ahead_is_fitted(fewer, rest, encoding, at);
        assert(fewer.take(at) =~= groups.take(at));
        assert(rest.take(at) =~= texts.take(at));
    } else {
        assert(groups.take(at) =~= groups);
        assert(texts.take(at) =~= texts);
    }
}

/// An answer is refused for a line a file has not by the name of that file, and for anything else as it
/// is.
pub proof fn law_a_misfit_is_told_by_the_file(
    group: (Seq<char>, Seq<ReplacementModel>),
    text: Seq<char>,
    encoding: PositionEncoding,
    fault: Fault,
)
    requires
        answers::edits_named(encode_utf8(text), group.1, encoding) == Err::<
            Seq<TextEditModel>,
            Fault,
        >(fault),
    ensures
        fault matches Fault::LinePastFile { line } ==> fitted(group, text, encoding) == Err::<
            FileEditModel,
            Fault,
        >(Fault::DoesNotFit { file_path: group.0, line }),
        !(fault is LinePastFile) ==> fitted(group, text, encoding) == Err::<FileEditModel, Fault>(
            fault,
        ),
{
}

/// An action that can be carried out is offered under its own title and kind, and as the one to take
/// exactly where the server says it is.
pub proof fn law_an_action_is_offered_as_the_server_named_it(
    title: Seq<char>,
    kind: Option<Seq<char>>,
    preferred: Option<bool>,
    edit: Seq<char>,
    files: Seq<FileEditModel>,
)
    requires
        files.len() > 0,
    ensures
        action_of(
            OfferedModel::Action { title, kind, preferred, disabled: None, edit: Some(edit) },
            Ok(files),
        ) matches Some(action) && action.title == title && action.kind == kind && action.files
            == files && (action.preferred <==> preferred == Some(true)),
{
}

/// What is offered comes in the server's order but for the ones to take, which come ahead of the others
/// in theirs: as many as can be carried out, those to take and then the rest.
pub proof fn law_offers_come_in_order(actions: Seq<ActionModel>)
    ensures
        order::ranked::<LspCodeAction>(actions) == actions.filter(
            |action: ActionModel| action.preferred,
        ) + actions.filter(|action: ActionModel| !action.preferred),
    decreases actions.len(),
{
    reveal(Seq::filter);
    if actions.len() > 0 {
        let fewer = actions.drop_last();
        let last = actions.last();
        law_offers_come_in_order(fewer);
        let first = fewer.filter(|action: ActionModel| action.preferred);
        let others = fewer.filter(|action: ActionModel| !action.preferred);
        lemma_placed_among(first, others, last);
    } else {
        assert(order::ranked::<LspCodeAction>(actions) =~= actions.filter(
            |action: ActionModel| action.preferred,
        ) + actions.filter(|action: ActionModel| !action.preferred));
    }
}

proof fn lemma_placed_among(first: Seq<ActionModel>, others: Seq<ActionModel>, action: ActionModel)
    requires
        forall|i: int| 0 <= i < first.len() ==> (#[trigger] first[i]).preferred,
        forall|i: int| 0 <= i < others.len() ==> !(#[trigger] others[i]).preferred,
    ensures
        order::placed::<LspCodeAction>(first + others, action) == if action.preferred {
            first.push(action) + others
        } else {
            first + others.push(action)
        },
    decreases others.len(),
{
    let all = first + others;
    if action.preferred && others.len() > 0 {
        let fewer = others.drop_last();
        assert(all.drop_last() =~= first + fewer);
        assert(all.last() == others.last());
        assert(!others[others.len() - 1].preferred);
        lemma_placed_among(first, fewer, action);
        assert((first.push(action) + fewer).push(others.last()) =~= first.push(action) + others);
    } else {
        if all.len() > 0 {
            if others.len() > 0 {
                assert(all.last() == others[others.len() - 1]);
            } else {
                assert(all.last() == first[first.len() - 1]);
            }
        }
        if action.preferred {
            assert(all.push(action) =~= first.push(action) + others);
        } else {
            assert(all.push(action) =~= first + others.push(action));
        }
    }
}

/// An answer is read in its newer shape wherever it has it, and in the older one only where it has
/// not. An answer of nothing changes nothing, and one with a string too long for a URI cannot be read.
pub proof fn law_the_newer_shape_is_read_where_there_is_one(answer: Seq<char>)
    ensures
        wire::is_too_long(answer) || wire::documents_in(answer) is None ==> entries_said(answer)
            == Err::<Seq<(Seq<char>, Seq<ReplacementModel>)>, Fault>(
            Fault::Unreadable { answer: Answer::Edits },
        ),
        !wire::is_too_long(answer) ==> {
            &&& wire::documents_in(answer) matches Some(Some(Some(changes))) ==> entries_said(answer)
                == entries_in(changes)
            &&& wire::documents_in(answer) matches Some(Some(None)) ==> (wire::mapped_in(
                answer,
            ) matches Some(Some(Some(changes))) ==> entries_said(answer) == Ok::<
                Seq<(Seq<char>, Seq<ReplacementModel>)>,
                Fault,
            >(listed(changes)))
            &&& wire::documents_in(answer) matches Some(None) ==> (entries_said(answer) matches Ok(
                entries,
            ) && entries.len() == 0)
        },
{
}

/// The documents of the older shape come in the order of their names, byte for byte, each once and with
/// all its edits.
pub proof fn law_a_map_is_listed_in_the_order_of_its_names(
    entries: Seq<(String, Vec<Replacement>)>,
    at: int,
)
    requires
        wire::are_distinct(entries),
    ensures
        listed(wire::mapped(entries)).len() == entries.len(),
        forall|i: int, j: int|
            0 <= i < j < entries.len() ==> text::is_after(
                encode_utf8((#[trigger] listed(wire::mapped(entries))[j]).0),
                encode_utf8((#[trigger] listed(wire::mapped(entries))[i]).0),
            ),
        0 <= at < entries.len() ==> listed(wire::mapped(entries)).contains(
            (entries[at].0@, wire::views(entries[at].1@)),
        ),
{
    let all = order::models(entries);
    lemma_listed(entries);
    lemma_mapped(entries);
    assert forall|i: int, j: int| 0 <= i < j < all.len() implies (<(
        String,
        Vec<Replacement>,
    )>::behind(#[trigger] all[i], #[trigger] all[j]) || <(String, Vec<Replacement>)>::behind(
        all[j],
        all[i],
    )) by {
        let one = entries[i].0@;
        let other = entries[j].0@;
        assert(one != other);
        encode_utf8_decode_utf8(one);
        encode_utf8_decode_utf8(other);
        text::lemma_byte_order(encode_utf8(one), encode_utf8(other), encode_utf8(other));
    }
    order::law_things_apart_are_put_strictly_in_order::<(String, Vec<Replacement>)>(all);
    order::law_order_keeps_everything::<(String, Vec<Replacement>)>(all);
    let sorted = order::ranked::<(String, Vec<Replacement>)>(all);
    assert forall|i: int, j: int| 0 <= i < j < sorted.len() implies text::is_after(
        encode_utf8((#[trigger] sorted[j]).0),
        encode_utf8((#[trigger] sorted[i]).0),
    ) by {
        assert(<(String, Vec<Replacement>)>::behind(sorted[j], sorted[i]));
    }
    if 0 <= at < entries.len() {
        assert(all[at] == (entries[at].0@, wire::views(entries[at].1@)));
        assert(all.contains(all[at]));
    }
}

/// Edits to lines a file has are refused for that file exactly as they would be refused going into it,
/// and are handed back in the order they sit in it where they would not.
pub proof fn law_edits_to_a_file_are_those_that_go_into_it(
    group: (Seq<char>, Seq<ReplacementModel>),
    text: Seq<char>,
    encoding: PositionEncoding,
    named: Seq<TextEditModel>,
)
    requires
        answers::edits_named(encode_utf8(text), group.1, encoding) == Ok::<
            Seq<TextEditModel>,
            Fault,
        >(named),
    ensures
        match edits::ordered_spans(encode_utf8(text), named) {
            Err(fault) => fitted(group, text, encoding) == Err::<FileEditModel, Fault>(fault),
            Ok(_) => fitted(group, text, encoding) matches Ok(file) && file.file_path == group.0
                && edits::ordered_spans(encode_utf8(text), file.edits) == edits::ordered_spans(
                encode_utf8(text),
                named,
            ) && file.edits.to_multiset() == named.to_multiset(),
        },
{
    encode_utf8_valid_utf8(text);
    edits::law_edits_in_place_come_to_the_same(encode_utf8(text), named);
    edits::law_edits_that_sit_in_a_text_never_overlap(encode_utf8(text), named);
}

} // verus!
