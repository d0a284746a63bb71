//! Reading a `.docpack`: listing its entries, rendering one of them, and
//! searching the Markdown entries for a phrase.
//!
//! A pack is a zip archive. The caller reads the pack's bytes from disk;
//! the `zip` crate finds the entries in them, and `pulldown-cmark` turns
//! Markdown into HTML.

use vstd::prelude::*;
use std::io::Cursor;
use std::io::Read;
use zip::ZipArchive;
use crate::render::{html_of_markdown, markdown_to_html};
use crate::text::{chars_of, contains, ends_with, has_suffix, occurs_at, occurs_in, views};

verus! {

/// Makes std's `io::Cursor` known to the verifier, as an opaque type.
#[verifier::external_type_specification]
#[verifier::external_body]
#[verifier::reject_recursive_types(T)]
pub struct ExCursor<T>(std::io::Cursor<T>);

/// Makes `zip::ZipArchive` known to the verifier, as an opaque type whose
/// entries `archive_entries` names.
#[verifier::external_type_specification]
#[verifier::external_body]
#[verifier::reject_recursive_types(R)]
pub struct ExZipArchive<R>(zip::ZipArchive<R>);

/// An entry of an archive, as plain values:
/// - `.0`: its name;
/// - `.1`: whether `ZipArchive::by_index` opens it;
/// - `.2`: its contents, when `by_index` opens it and `read_to_string`
///   reads all of it as UTF-8;
/// - `.3`: whether `ZipArchive::by_index_decrypt` with the empty password
///   answers something other than `InvalidPassword`. It answers that for
///   an encrypted entry whose password is not the empty one, and for an
///   entry that carries AES data but no encryption flag, the one entry on
///   which `by_index` panics; for any other entry that is not encrypted the
///   password is set aside and it takes the path of `by_index`;
/// - `.4`: the display text of the error with which `by_index` fails on
///   it; for the entry on which `by_index` panics, the text of
///   `ZipError::UnsupportedArchive(ZipError::PASSWORD_REQUIRED)`, which
///   `by_index` gives for an encrypted entry;
/// - `.5`: the display text of the error of `read_to_string` on it, when
///   `by_index` opens it and the text cannot be read.
pub type EntryModel = (Seq<char>, bool, Option<Seq<char>>, bool, Seq<char>, Seq<char>);

/// The entries, in order, that `ZipArchive::new` finds in the bytes of an
/// archive, or `None` when it refuses them.
pub uninterp spec fn archive_from_bytes(bytes: Seq<u8>) -> Option<Seq<(Seq<char>, bool, Option<Seq<char>>, bool, Seq<char>, Seq<char>)>>;

/// The display text of the error with which `ZipArchive::new` refuses the
/// bytes of an archive.
pub uninterp spec fn open_error_text(bytes: Seq<u8>) -> Seq<char>;

/// The entries of an open archive, in order.
pub uninterp spec fn archive_entries(archive: ZipArchive<Cursor<Vec<u8>>>) -> Seq<(Seq<char>, bool, Option<Seq<char>>, bool, Seq<char>, Seq<char>)>;

/// The lower-case form of a text, as `str::to_lowercase` gives it.
pub uninterp spec fn lowercase(text: Seq<char>) -> Seq<char>;

/// Why an entry looked up by name could not be read.
#[derive(Debug)]
pub enum NamedEntryError {
    /// The lookup failed, with this error text.
    Missing(String),
    /// The entry was found but its contents could not be read as text.
    Unreadable(String),
}

/// The error text of `zip`'s `ZipError::FileNotFound`.
pub open spec fn file_not_found_text() -> Seq<char> {
    "specified file not found in archive"@
}

/// The position of the last entry named `name`, or -1 when there is none.
pub open spec fn last_entry_named(entries: Seq<EntryModel>, name: Seq<char>) -> int
    decreases entries.len(),
{
    if entries.len() == 0 {
        -1
    } else if entries.last().0 == name {
        entries.len() - 1
    } else {
        last_entry_named(entries.drop_last(), name)
    }
}

/// The entry that a lookup by name finds: the last one of that name.
pub open spec fn found_entry(entries: Seq<EntryModel>, name: Seq<char>) -> Option<EntryModel> {
    let k = last_entry_named(entries, name);
    if k < 0 {
        None
    } else {
        Some(entries[k])
    }
}

/// The names, in order, of the entries that can be opened.
pub open spec fn listed_names(entries: Seq<EntryModel>) -> Seq<Seq<char>>
    decreases entries.len(),
{
    if entries.len() == 0 {
        seq![]
    } else {
        let rest = listed_names(entries.drop_last());
        if entries.last().1 {
            rest.push(entries.last().0)
        } else {
            rest
        }
    }
}

/// An entry name that `zip`'s `ZipFile::is_file` accepts: one that does not
/// end with `/` or `\\`.
pub open spec fn is_file_entry(name: Seq<char>) -> bool {
    name.len() == 0 || (name.last() != '/' && name.last() != '\\')
}

/// A file entry whose name ends with `.md` and whose lower-cased text
/// contains the lower-cased query.
pub open spec fn is_search_hit(name: Seq<char>, lowered_text: Seq<char>, lowered_query: Seq<char>) -> bool {
    is_file_entry(name) && has_suffix(name, ".md"@) && occurs_in(lowered_text, lowered_query)
}

/// The names, in order, of the Markdown entries that can be opened and
/// read, and whose text contains the query, case aside.
pub open spec fn search_results(entries: Seq<EntryModel>, query: Seq<char>) -> Seq<Seq<char>>
    decreases entries.len(),
{
    if entries.len() == 0 {
        seq![]
    } else {
        let rest = search_results(entries.drop_last(), query);
        let e = entries.last();
        if e.1 && e.2 is Some && is_search_hit(e.0, lowercase(e.2->0), lowercase(query)) {
            rest.push(e.0)
        } else {
            rest
        }
    }
}

/// The names, in order, of the Markdown file entries that can be opened and
/// read as text.
pub open spec fn markdown_names(entries: Seq<EntryModel>) -> Seq<Seq<char>>
    decreases entries.len(),
{
    if entries.len() == 0 {
        seq![]
    } else {
        let rest = markdown_names(entries.drop_last());
        let e = entries.last();
        if e.1 && e.2 is Some && is_file_entry(e.0) && has_suffix(e.0, ".md"@) {
            rest.push(e.0)
        } else {
            rest
        }
    }
}

/// `a` is `b` with some of its items left out, the others kept in order.
pub open spec fn is_subsequence(a: Seq<Seq<char>>, b: Seq<Seq<char>>) -> bool
    decreases b.len(),
{
    if b.len() == 0 {
        a.len() == 0
    } else {
        is_subsequence(a, b.drop_last()) || (a.len() > 0 && a.last() == b.last()
            && is_subsequence(a.drop_last(), b.drop_last()))
    }
}

/// The error for bytes that are not a zip archive.
pub open spec fn invalid_pack_error(reason: Seq<char>) -> Seq<char> {
    "Not a valid DocCrate pack: "@ + reason
}

/// The error for an entry that could not be found or opened.
pub open spec fn missing_entry_error(reason: Seq<char>) -> Seq<char> {
    "File not found in pack: "@ + reason
}

/// The error for an entry that could not be read as text.
pub open spec fn unreadable_entry_error(reason: Seq<char>) -> Seq<char> {
    "Failed to read file: "@ + reason
}

/// The display text of `ZipError::UnsupportedArchive(ZipError::PASSWORD_REQUIRED)`.
pub open spec fn password_required_text() -> Seq<char> {
    "unsupported Zip archive: Password required to decrypt file"@
}

// ---------------------------------------------------------------------------
// Calls into `zip`, `pulldown-cmark` and std
// ---------------------------------------------------------------------------

/// Opens an archive held in memory.
///
/// Calls `zip::ZipArchive::new` on a cursor over the bytes. It succeeds
/// exactly when `archive_from_bytes` finds entries in them, and the open
/// archive then holds those entries. On failure the error is given as its
/// display text, which `open_error_text` names: reading from a cursor over
/// the bytes depends on the bytes alone.
#[verifier::external_body]
fn open_archive(bytes: Vec<u8>) -> (r: Result<ZipArchive<Cursor<Vec<u8>>>, String>)
    ensures
        r is Ok <==> archive_from_bytes(bytes@) is Some,
        r matches Ok(a) ==> archive_entries(a) == archive_from_bytes(bytes@)->0,
        r matches Err(e) ==> e@ == open_error_text(bytes@),
{
    match ZipArchive::new(Cursor::new(bytes)) {
        Ok(a) => Ok(a),
        Err(e) => Err(e.to_string()),
    }
}

/// The number of entries of an archive (`ZipArchive::len`).
#[verifier::external_body]
fn entry_count(archive: &ZipArchive<Cursor<Vec<u8>>>) -> (n: usize)
    ensures
        n == archive_entries(*archive).len(),
{
    archive.len()
}

/// Whether `ZipArchive::by_index_decrypt` with the empty password answers
/// the `i`-th entry with something other than `InvalidPassword`.
///
/// For an entry that is not encrypted the password is set aside and the
/// call takes the path of `by_index`, so an entry that `by_index` opens is
/// one this does not refuse. It refuses an encrypted entry only when the
/// password does not check, and `by_index` refuses every encrypted entry
/// with `UnsupportedArchive(PASSWORD_REQUIRED)`.
#[verifier::external_body]
fn entry_unlocks_at(archive: &mut ZipArchive<Cursor<Vec<u8>>>, i: usize) -> (r: bool)
    ensures
        archive_entries(*final(archive)) == archive_entries(*old(archive)),
        i < archive_entries(*old(archive)).len() ==> {
            let e = archive_entries(*old(archive))[i as int];
            &&& r == e.3
            &&& (e.1 ==> r)
            &&& (!r ==> e.4 == password_required_text())
        },
{
    match archive.by_index_decrypt(i, b"") {
        Ok(Err(_)) => false,
        Ok(Ok(_)) => true,
        Err(_) => true,
    }
}

/// The name of the `i`-th entry, when `ZipArchive::by_index` opens it.
///
/// `by_index` panics only on an entry that carries AES data without the
/// encryption flag, and `by_index_decrypt` with the empty password refuses
/// such an entry with `InvalidPassword`; so on an entry that it does not
/// refuse so, `by_index` returns. Opening an entry moves the archive's reader but does
/// not change its entries.
#[verifier::external_body]
fn entry_name_at(archive: &mut ZipArchive<Cursor<Vec<u8>>>, i: usize) -> (r: Option<String>)
    requires
        i < archive_entries(*old(archive)).len(),
        archive_entries(*old(archive))[i as int].3,
    ensures
        archive_entries(*final(archive)) == archive_entries(*old(archive)),
        r is Some <==> archive_entries(*old(archive))[i as int].1,
        r matches Some(name) ==> name@ == archive_entries(*old(archive))[i as int].0,
{
    match archive.by_index(i) {
        Ok(file) => Some(file.name().to_string()),
        Err(_) => None,
    }
}

/// The contents of the `i`-th entry as text, when `ZipArchive::by_index`
/// opens it and `read_to_string` can read all of it as UTF-8. As for
/// `entry_name_at`, `by_index` returns on an entry that
/// `by_index_decrypt` with the empty password does not refuse.
#[verifier::external_body]
fn entry_text_at(archive: &mut ZipArchive<Cursor<Vec<u8>>>, i: usize) -> (r: Option<String>)
    requires
        i < archive_entries(*old(archive)).len(),
        archive_entries(*old(archive))[i as int].3,
    ensures
        archive_entries(*final(archive)) == archive_entries(*old(archive)),
        r is Some ==> archive_entries(*old(archive))[i as int].1,
        r is Some <==> archive_entries(*old(archive))[i as int].2 is Some,
        r matches Some(text) ==> text@ == archive_entries(*old(archive))[i as int].2->0,
{
    match archive.by_index(i) {
        Ok(mut file) => {
            let mut text = String::new();
            match file.read_to_string(&mut text) {
                Ok(_) => Some(text),
                Err(_) => None,
            }
        },
        Err(_) => None,
    }
}

/// Whether `ZipArchive::by_name_decrypt` with the empty password answers
/// the entry of the given name with `InvalidPassword`.
///
/// The lookup finds the last entry of that name (a later entry of the same
/// name hides an earlier one), fails with `FileNotFound` when there is none,
/// and otherwise goes on as `by_index_decrypt` does on that entry: so,
/// as for `entry_unlocks_at`, an entry it refuses is one that `by_index`
/// does not open, and fails on with `UnsupportedArchive(PASSWORD_REQUIRED)`
/// unless it panics.
#[verifier::external_body]
fn entry_refuses_password_named(archive: &mut ZipArchive<Cursor<Vec<u8>>>, name: &str) -> (r: bool)
    ensures
        archive_entries(*final(archive)) == archive_entries(*old(archive)),
        found_entry(archive_entries(*old(archive)), name@) is None ==> !r,
        found_entry(archive_entries(*old(archive)), name@) matches Some(e) ==> r == !e.3,
        r ==> (found_entry(archive_entries(*old(archive)), name@) matches Some(e) && !e.1 && e.4
            == password_required_text()),
{
    match archive.by_name_decrypt(name, b"") {
        Ok(Err(_)) => true,
        Ok(Ok(_)) => false,
        Err(_) => false,
    }
}

/// The display text of `zip`'s
/// `ZipError::UnsupportedArchive(ZipError::PASSWORD_REQUIRED)`.
#[verifier::external_body]
fn password_required_message() -> (r: String)
    ensures
        r@ == password_required_text(),
{
    zip::result::ZipError::UnsupportedArchive(zip::result::ZipError::PASSWORD_REQUIRED).to_string()
}

/// The contents, as text, of the entry that `ZipArchive::by_name` finds.
///
/// `by_name` fails with `FileNotFound` when no entry has that name, and
/// otherwise opens the last entry of that name as `by_index` does: so it
/// returns on an entry that `by_index_decrypt` with the empty password does
/// not refuse, and fails, or reads, as `by_index` and `read_to_string` do
/// on that entry.
#[verifier::external_body]
fn entry_text_named(archive: &mut ZipArchive<Cursor<Vec<u8>>>, name: &str) -> (r: Result<String, NamedEntryError>)
    requires
        found_entry(archive_entries(*old(archive)), name@) matches Some(e) ==> e.3,
    ensures
        archive_entries(*final(archive)) == archive_entries(*old(archive)),
        found_entry(archive_entries(*old(archive)), name@) is None ==> (r matches Err(
            NamedEntryError::Missing(t),
        ) && t@ == file_not_found_text()),
        found_entry(archive_entries(*old(archive)), name@) matches Some(e) ==> {
            if !e.1 {
                r matches Err(NamedEntryError::Missing(t)) && t@ == e.4
            } else if e.2 is None {
                r matches Err(NamedEntryError::Unreadable(t)) && t@ == e.5
            } else {
                r matches Ok(text) && text@ == e.2->0
            }
        },
{
    match archive.by_name(name) {
        Ok(mut file) => {
            let mut text = String::new();
            match file.read_to_string(&mut text) {
                Ok(_) => Ok(text),
                Err(e) => Err(NamedEntryError::Unreadable(e.to_string())),
            }
        },
        Err(e) => Err(NamedEntryError::Missing(e.to_string())),
    }
}

/// The lower-case form of a text (std's `str::to_lowercase`), which its
/// documentation gives as the lower-case equivalent of each character: so
/// the empty text stays empty. Nothing more is stated of it.
#[verifier::external_body]
fn to_lowercase(text: &str) -> (r: String)
    ensures
        r@ == lowercase(text@),
        text@.len() == 0 ==> r@.len() == 0,
{
    text.to_lowercase()
}

// ---------------------------------------------------------------------------
// Reading a pack
// ---------------------------------------------------------------------------

/// `a` followed by `b`.
fn joined(a: &str, b: &str) -> (r: String)
    ensures
        r@ == a@ + b@,
{
    let mut r = String::from_str(a);
    r.append(b);
    r
}

/// Whether an entry of this name is a Markdown file: a file entry whose
/// name ends with `.md`.
pub fn is_markdown_file(name: &str) -> (r: bool)
    ensures
        r == (is_file_entry(name@) && has_suffix(name@, ".md"@)),
{
    let n = chars_of(name);
    let file = n.len() == 0 || (n[n.len() - 1] != '/' && n[n.len() - 1] != '\\');
    let suffix = chars_of(".md");
    file && ends_with(n.as_slice(), suffix.as_slice())
}

/// The names of the entries of a pack that can be opened, in order.
pub fn list_docpack_files(pack: Vec<u8>) -> (r: Result<Vec<String>, String>)
    ensures
        r is Ok <==> archive_from_bytes(pack@) is Some,
        r matches Ok(names) ==> views(names@) == listed_names(archive_from_bytes(pack@)->0),
        r matches Err(msg) ==> msg@ == invalid_pack_error(open_error_text(pack@)),
{
    let ghost bytes = pack@;
    let mut archive = match open_archive(pack) {
        Ok(a) => a,
        Err(e) => {
            let msg = joined("Not a valid DocCrate pack: ", e.as_str());
            assert(msg@ == invalid_pack_error(e@));
            return Err(msg);
        },
    };
    let ghost es = archive_entries(archive);
    let n = entry_count(&archive);
    let mut files: Vec<String> = Vec::new();
    let mut i: usize = 0;
    assert(es.subrange(0, 0) =~= Seq::<EntryModel>::empty());
    while i < n
        invariant
            n == es.len(),
            i <= n,
            archive_entries(archive) == es,
            views(files@) == listed_names(es.subrange(0, i as int)),
        decreases n - i,
    {
        assert(es.subrange(0, i + 1).drop_last() =~= es.subrange(0, i as int));
        assert(es.subrange(0, i + 1).last() == es[i as int]);
        let found = if entry_unlocks_at(&mut archive, i) {
            entry_name_at(&mut archive, i)
        } else {
            None
        };
        if let Some(name) = found {
            let ghost before = files@;
            files.push(name);
            assert(views(files@) =~= views(before).push(es[i as int].0));
        }
        i = i + 1;
    }
    assert(es.subrange(0, n as int) =~= es);
    Ok(files)
}

/// The entry of a pack with the given name, rendered from Markdown to HTML.
pub fn read_docpack_file(pack: Vec<u8>, target_file: &str) -> (r: Result<String, String>)
    ensures
        archive_from_bytes(pack@) is None ==> (r matches Err(msg) && msg@ == invalid_pack_error(
            open_error_text(pack@),
        )),
        archive_from_bytes(pack@) matches Some(es) ==> {
            match found_entry(es, target_file@) {
                None => r matches Err(msg) && msg@ == missing_entry_error(file_not_found_text()),
                Some(e) => if !e.1 {
                    r matches Err(msg) && msg@ == missing_entry_error(e.4)
                } else if e.2 is None {
                    r matches Err(msg) && msg@ == unreadable_entry_error(e.5)
                } else {
                    r matches Ok(html) && html@ == html_of_markdown(e.2->0)
                },
            }
        },
{
    let mut archive = match open_archive(pack) {
        Ok(a) => a,
        Err(e) => {
            let msg = joined("Not a valid DocCrate pack: ", e.as_str());
            assert(msg@ == invalid_pack_error(e@));
            return Err(msg);
        },
    };
    if entry_refuses_password_named(&mut archive, target_file) {
        let reason = password_required_message();
        let msg = joined("File not found in pack: ", reason.as_str());
        assert(msg@ == missing_entry_error(reason@));
        return Err(msg);
    }
    match entry_text_named(&mut archive, target_file) {
        Ok(markdown) => Ok(markdown_to_html(markdown.as_str())),
        Err(NamedEntryError::Missing(e)) => {
            let msg = joined("File not found in pack: ", e.as_str());
            assert(msg@ == missing_entry_error(e@));
            Err(msg)
        },
        Err(NamedEntryError::Unreadable(e)) => {
            let msg = joined("Failed to read file: ", e.as_str());
            assert(msg@ == unreadable_entry_error(e@));
            Err(msg)
        },
    }
}

/// The names of the Markdown entries of a pack whose text contains the
/// query, case aside, in order.
pub fn search_docpack(pack: Vec<u8>, query: &str) -> (r: Result<Vec<String>, String>)
    ensures
        r is Ok <==> archive_from_bytes(pack@) is Some,
        r matches Ok(names) ==> views(names@) == search_results(archive_from_bytes(pack@)->0, query@),
        query@.len() == 0 ==> (r matches Ok(names) ==> views(names@) == markdown_names(
            archive_from_bytes(pack@)->0,
        )),
        r matches Err(msg) ==> msg@ == invalid_pack_error(open_error_text(pack@)),
{
    let ghost bytes = pack@;
    let mut archive = match open_archive(pack) {
        Ok(a) => a,
        Err(e) => {
            let msg = joined("Not a valid DocCrate pack: ", e.as_str());
            assert(msg@ == invalid_pack_error(e@));
            return Err(msg);
        },
    };
    let ghost es = archive_entries(archive);
    let query_lower = to_lowercase(query);
    proof {
        if query@.len() == 0 {
            law_empty_query_finds_all_markdown(es, query@);
        }
    }
    let n = entry_count(&archive);
    let mut results: Vec<String> = Vec::new();
    let mut i: usize = 0;
    assert(es.subrange(0, 0) =~= Seq::<EntryModel>::empty());
    while i < n
        invariant
            n == es.len(),
            i <= n,
            archive_entries(archive) == es,
            query_lower@ == lowercase(query@),
            views(results@) == search_results(es.subrange(0, i as int), query@),
        decreases n - i,
    {
        assert(es.subrange(0, i + 1).drop_last() =~= es.subrange(0, i as int));
        assert(es.subrange(0, i + 1).last() == es[i as int]);
        let ghost e = es[i as int];
        let unlocked = entry_unlocks_at(&mut archive, i);
        let found = if unlocked {
            entry_name_at(&mut archive, i)
        } else {
            None
        };
        if let Some(name) = found {
            if is_markdown_file(name.as_str()) {
                if let Some(text) = entry_text_at(&mut archive, i) {
                    let lowered = chars_of(to_lowercase(text.as_str()).as_str());
                    let q = chars_of(query_lower.as_str());
                    if contains(lowered.as_slice(), q.as_slice()) {
                        let ghost before = results@;
                        results.push(name);
                        assert(views(results@) =~= views(before).push(e.0));
                    }
                }
            }
        }
        i = i + 1;
    }
    assert(es.subrange(0, n as int) =~= es);
    Ok(results)
}

// ---------------------------------------------------------------------------
// Laws of reading
// ---------------------------------------------------------------------------

/// Law: every entry of a pack that can be opened is listed.
pub proof fn law_listing_is_complete(entries: Seq<EntryModel>, i: int)
    requires
        0 <= i < entries.len(),
        entries[i].1,
    ensures
        listed_names(entries).contains(entries[i].0),
    decreases entries.len(),
{
    let rest = entries.drop_last();
    if i == entries.len() - 1 {
        assert(listed_names(entries).last() == entries[i].0);
    } else {
        assert(rest[i] == entries[i]);
        law_listing_is_complete(rest, i);
        let k = choose|k: int| 0 <= k < listed_names(rest).len() && listed_names(rest)[k] == entries[i].0;
        if entries.last().1 {
            assert(listed_names(entries)[k] == entries[i].0);
        }
    }
}

/// Law: what a search finds is among the listed entries, is a file entry,
/// and ends with `.md`.
pub proof fn law_search_finds_listed_markdown(entries: Seq<EntryModel>, query: Seq<char>, k: int)
    requires
        0 <= k < search_results(entries, query).len(),
    ensures
        listed_names(entries).contains(search_results(entries, query)[k]),
        is_file_entry(search_results(entries, query)[k]),
        has_suffix(search_results(entries, query)[k], ".md"@),
    decreases entries.len(),
{
    let rest = entries.drop_last();
    let found = search_results(entries, query);
    let e = entries.last();
    if k == search_results(rest, query).len() {
        assert(found[k] == e.0);
        assert(listed_names(entries).last() == e.0);
    } else {
        assert(found[k] == search_results(rest, query)[k]);
        law_search_finds_listed_markdown(rest, query, k);
        let j = choose|j: int| 0 <= j < listed_names(rest).len() && listed_names(rest)[j] == found[k];
        if e.1 {
            assert(listed_names(entries)[j] == found[k]);
        }
    }
}

/// Law: a search ignores case: two queries with the same lower-case form
/// find the same entries.
pub proof fn law_search_ignores_case(entries: Seq<EntryModel>, q1: Seq<char>, q2: Seq<char>)
    requires
        lowercase(q1) == lowercase(q2),
    ensures
        search_results(entries, q1) == search_results(entries, q2),
    decreases entries.len(),
{
    if entries.len() > 0 {
        law_search_ignores_case(entries.drop_last(), q1, q2);
    }
}

/// Law: what a search finds is the listing with some names left out, in
/// the listing's order.
pub proof fn law_search_keeps_listing_order(entries: Seq<EntryModel>, query: Seq<char>)
    ensures
        is_subsequence(search_results(entries, query), listed_names(entries)),
    decreases entries.len(),
{
    if entries.len() > 0 {
        let rest = entries.drop_last();
        law_search_keeps_listing_order(rest, query);
        let e = entries.last();
        if e.1 {
            assert(listed_names(entries).drop_last() =~= listed_names(rest));
            if e.2 is Some && is_search_hit(e.0, lowercase(e.2->0), lowercase(query)) {
                assert(search_results(entries, query).drop_last() =~= search_results(rest, query));
            }
        }
    }
}

/// A text that contains `mid`, where `mid` contains `needle`, contains
/// `needle`.
proof fn lemma_occurs_in_transitive(hay: Seq<char>, mid: Seq<char>, needle: Seq<char>)
    requires
        occurs_in(hay, mid),
        occurs_in(mid, needle),
    ensures
        occurs_in(hay, needle),
{
    let i = choose|i: int| occurs_at(hay, mid, i);
    let j = choose|j: int| occurs_at(mid, needle, j);
    assert(hay.subrange(i + j, i + j + needle.len()) =~= mid.subrange(j, j + needle.len()));
    assert(occurs_at(hay, needle, i + j));
}

/// Law: a longer query finds less. When the lower-case form of `longer`
/// contains that of `shorter`, what `longer` finds is what `shorter` finds
/// with some names left out, in the same order.
pub proof fn law_longer_query_finds_less(entries: Seq<EntryModel>, shorter: Seq<char>, longer: Seq<char>)
    requires
        occurs_in(lowercase(longer), lowercase(shorter)),
    ensures
        is_subsequence(search_results(entries, longer), search_results(entries, shorter)),
    decreases entries.len(),
{
    if entries.len() > 0 {
        let rest = entries.drop_last();
        law_longer_query_finds_less(rest, shorter, longer);
        let e = entries.last();
        if e.1 && e.2 is Some {
            let t = lowercase(e.2->0);
            if is_search_hit(e.0, t, lowercase(longer)) {
                lemma_occurs_in_transitive(t, lowercase(longer), lowercase(shorter));
                assert(search_results(entries, longer).drop_last() =~= search_results(rest, longer));
            }
            if is_search_hit(e.0, t, lowercase(shorter)) {
                assert(search_results(entries, shorter).drop_last() =~= search_results(rest, shorter));
            }
        }
    }
}

/// Law: a query whose lower-case form is empty finds exactly the Markdown
/// file entries that can be opened and read as text, in order.
pub proof fn law_empty_query_finds_all_markdown(entries: Seq<EntryModel>, query: Seq<char>)
    requires
        lowercase(query).len() == 0,
    ensures
        search_results(entries, query) == markdown_names(entries),
    decreases entries.len(),
{
    if entries.len() > 0 {
        let e = entries.last();
        law_empty_query_finds_all_markdown(entries.drop_last(), query);
        if e.2 is Some {
            assert(occurs_at(lowercase(e.2->0), lowercase(query), 0)) by {
                assert(lowercase(e.2->0).subrange(0, 0) =~= lowercase(query));
            }
        }
    }
}

/// Law: a search finds every match. A Markdown file entry that can be
/// opened and read, and whose whole lower-cased text contains the
/// lower-cased query anywhere, is among the results.
pub proof fn law_search_finds_every_match(entries: Seq<EntryModel>, query: Seq<char>, k: int)
    requires
        0 <= k < entries.len(),
        entries[k].1,
        entries[k].2 is Some,
        is_file_entry(entries[k].0),
        has_suffix(entries[k].0, ".md"@),
        occurs_in(lowercase(entries[k].2->0), lowercase(query)),
    ensures
        search_results(entries, query).contains(entries[k].0),
    decreases entries.len(),
{
    let rest = entries.drop_last();
    let found = search_results(entries, query);
    if k == entries.len() - 1 {
        assert(found.last() == entries[k].0);
    } else {
        assert(rest[k] == entries[k]);
        law_search_finds_every_match(rest, query, k);
        let j = choose|j: int| 0 <= j < search_results(rest, query).len()
            && search_results(rest, query)[j] == entries[k].0;
        assert(found[j] == entries[k].0);
    }
}

/// Law: a search finds only matches. Each result is the name of a Markdown
/// file entry that can be opened and read, and whose lower-cased text
/// contains the lower-cased query.
pub proof fn law_search_finds_only_matches(entries: Seq<EntryModel>, query: Seq<char>, k: int)
    requires
        0 <= k < search_results(entries, query).len(),
    ensures
        exists|j: int| {
            &&& 0 <= j < entries.len()
            &&& #[trigger] entries[j].0 == search_results(entries, query)[k]
            &&& entries[j].1
            &&& entries[j].2 is Some
            &&& is_file_entry(entries[j].0)
            &&& has_suffix(entries[j].0, ".md"@)
            &&& occurs_in(lowercase(entries[j].2->0), lowercase(query))
        },
    decreases entries.len(),
{
    let rest = entries.drop_last();
    let found = search_results(entries, query);
    let j0 = entries.len() - 1;
    if k == search_results(rest, query).len() {
        assert(entries[j0].0 == found[k]);
    } else {
        assert(found[k] == search_results(rest, query)[k]);
        law_search_finds_only_matches(rest, query, k);
        let j = choose|j: int| {
            &&& 0 <= j < rest.len()
            &&& #[trigger] rest[j].0 == search_results(rest, query)[k]
            &&& rest[j].1
            &&& rest[j].2 is Some
            &&& is_file_entry(rest[j].0)
            &&& has_suffix(rest[j].0, ".md"@)
            &&& occurs_in(lowercase(rest[j].2->0), lowercase(query))
        };
        assert(rest[j] == entries[j]);
        assert(entries[j].0 == found[k]);
    }
}

/// The position `last_entry_named` gives is -1 or that of an entry of that
/// name.
proof fn lemma_last_entry_named_range(entries: Seq<EntryModel>, name: Seq<char>)
    ensures
        -1 <= last_entry_named(entries, name) < entries.len(),
        last_entry_named(entries, name) >= 0 ==> entries[last_entry_named(entries, name)].0 == name,
    decreases entries.len(),
{
    if entries.len() > 0 && entries.last().0 != name {
        let rest = entries.drop_last();
        lemma_last_entry_named_range(rest, name);
        let k = last_entry_named(rest, name);
        if k >= 0 {
            assert(rest[k] == entries[k]);
        }
    }
}

/// Law: a lookup by name finds the last entry of that name, and finds
/// nothing exactly when no entry has that name.
pub proof fn law_lookup_finds_last_of_name(entries: Seq<EntryModel>, name: Seq<char>)
    ensures
        found_entry(entries, name) is None <==> forall|j: int| 0 <= j < entries.len() ==> #[trigger] entries[j].0 != name,
        found_entry(entries, name) matches Some(e) ==> exists|k: int| {
            &&& 0 <= k < entries.len()
            &&& #[trigger] entries[k] == e
            &&& e.0 == name
            &&& forall|j: int| k < j < entries.len() ==> #[trigger] entries[j].0 != name
        },
    decreases entries.len(),
{
    if entries.len() > 0 {
        let rest = entries.drop_last();
        law_lookup_finds_last_of_name(rest, name);
        let last = entries.len() - 1;
        if entries[last].0 == name {
            assert(entries[last] == found_entry(entries, name)->0);
            assert(entries[last] == found_entry(entries, name)->0 && entries[last].0 == name);
        } else {
            assert(last_entry_named(entries, name) == last_entry_named(rest, name));
            lemma_last_entry_named_range(rest, name);
            let k0 = last_entry_named(rest, name);
            if k0 >= 0 {
                assert(rest[k0] == entries[k0]);
                assert(found_entry(entries, name) == found_entry(rest, name));
            }
            if found_entry(rest, name) is None {
                assert forall|j: int| 0 <= j < entries.len() implies #[trigger] entries[j].0 != name by {
                    if j < last {
                        assert(rest[j] == entries[j]);
                    }
                }
            } else {
                let k = choose|k: int| {
                    &&& 0 <= k < rest.len()
                    &&& #[trigger] rest[k] == found_entry(rest, name)->0
                    &&& rest[k].0 == name
                    &&& forall|j: int| k < j < rest.len() ==> #[trigger] rest[j].0 != name
                };
                assert(entries[k] == rest[k]);
                assert forall|j: int| k < j < entries.len() implies #[trigger] entries[j].0 != name by {
                    if j < last {
                        assert(rest[j] == entries[j]);
                    }
                }
            }
        }
    }
}

/// Law: only entries that can be opened are listed.
pub proof fn law_listing_only_openable(entries: Seq<EntryModel>, k: int)
    requires
        0 <= k < listed_names(entries).len(),
    ensures
        exists|j: int| 0 <= j < entries.len() && #[trigger] entries[j].0 == listed_names(entries)[k] && entries[j].1,
    decreases entries.len(),
{
    let rest = entries.drop_last();
    let last = entries.len() - 1;
    if k == listed_names(rest).len() {
        assert(entries[last].0 == listed_names(entries)[k]);
    } else {
        assert(listed_names(entries)[k] == listed_names(rest)[k]);
        law_listing_only_openable(rest, k);
        let j = choose|j: int| 0 <= j < rest.len() && #[trigger] rest[j].0 == listed_names(rest)[k] && rest[j].1;
        assert(rest[j] == entries[j]);
        assert(entries[j].0 == listed_names(entries)[k]);
    }
}

} // verus!
