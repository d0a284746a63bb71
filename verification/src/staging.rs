//! The queue of staged sources, kept between runs as a JSON list of
//! strings in `doccrate.json`.
//!
//! The caller reads and writes the file; the library parses and prints the
//! JSON with `serde_json`, and decides what staging a source does.

use vstd::prelude::*;
use crate::json::json_quoted;
use crate::text::{blank, decimal, decimal_string, digit, is_blank, views};

verus! {

/// The file in which staged sources are kept.
pub const STAGE_FILE: &'static str = "doccrate.json";

/// The list of strings that `serde_json::from_str::<Vec<String>>` reads
/// from a text, or `None` when the text is not such a list.
pub uninterp spec fn json_string_list(text: Seq<char>) -> Option<Seq<Seq<char>>>;

/// The items of a non-empty list as `serde_json`'s pretty printer writes
/// them: each on a line of its own, indented by two spaces, as a JSON
/// string, with a comma between two items.
pub open spec fn pretty_items(list: Seq<Seq<char>>) -> Seq<char>
    decreases list.len(),
{
    if list.len() == 0 {
        seq![]
    } else if list.len() == 1 {
        "\n  "@ + json_quoted(list[0])
    } else {
        pretty_items(list.drop_last()) + ",\n  "@ + json_quoted(list.last())
    }
}

/// The text that `serde_json::to_string_pretty` writes for a list of
/// strings: `[]` when it is empty, else the items between `[` and a line
/// that holds `]`.
pub open spec fn pretty_json_string_list(list: Seq<Seq<char>>) -> Seq<char> {
    if list.len() == 0 {
        "[]"@
    } else {
        "["@ + pretty_items(list) + "\n]"@
    }
}

/// Reads a JSON list of strings with `serde_json::from_str::<Vec<String>>`.
/// It succeeds exactly when `json_string_list` gives a list, and then
/// returns that list.
#[verifier::external_body]
fn parse_string_list(text: &str) -> (r: Option<Vec<String>>)
    ensures
        r is Some <==> json_string_list(text@) is Some,
        r matches Some(list) ==> views(list@) == json_string_list(text@)->0,
{
    match serde_json::from_str::<Vec<String>>(text) {
        Ok(list) => Some(list),
        Err(_) => None,
    }
}

/// Writes a list of strings as indented JSON with
/// `serde_json::to_string_pretty`, giving the text that
/// `pretty_json_string_list` names. Its documentation says it fails only
/// when a `Serialize` implementation fails or a map has keys that are not
/// strings; a list of strings has neither (and it writes into a `Vec<u8>`,
/// which cannot fail), so it succeeds. Its `PrettyFormatter` opens the
/// array with `[`, starts each item on a new line indented by two spaces
/// (after a comma from the second on), writes each string as `to_string`
/// does, and ends a non-empty array with a new line and `]`. The strings are
/// escaped so that `serde_json::from_str` reads back the same strings: so
/// reading the text back gives the list.
#[verifier::external_body]
fn print_string_list(list: &Vec<String>) -> (r: Option<String>)
    ensures
        r is Some,
        r matches Some(text) ==> text@ == pretty_json_string_list(views(list@)),
        r matches Some(text) ==> json_string_list(text@) == Some(views(list@)),
{
    match serde_json::to_string_pretty(list) {
        Ok(text) => Some(text),
        Err(_) => None,
    }
}

/// The sources kept in a staging file with these contents: the JSON list
/// it holds, or none when it holds something else.
pub open spec fn staged_sources(content: Seq<char>) -> Seq<Seq<char>> {
    match json_string_list(content) {
        Some(list) => list,
        None => seq![],
    }
}

/// The queue after staging `source`: unchanged when the source is staged
/// already, else with the source added at the end.
pub open spec fn staged_after(list: Seq<Seq<char>>, source: Seq<char>) -> Seq<Seq<char>> {
    if list.contains(source) {
        list
    } else {
        list.push(source)
    }
}

/// The queue after staging each of `sources` in turn, starting from `list`.
pub open spec fn staged_all(list: Seq<Seq<char>>, sources: Seq<Seq<char>>) -> Seq<Seq<char>>
    decreases sources.len(),
{
    if sources.len() == 0 {
        list
    } else {
        staged_after(staged_all(list, sources.drop_last()), sources.last())
    }
}

/// The lines that show the queue.
pub open spec fn status_view(list: Seq<Seq<char>>) -> Seq<Seq<char>> {
    seq!["🗂️  Currently Staged Sources:"@] + if list.len() == 0 {
        seq!["   (None)"@]
    } else {
        Seq::new(list.len(), |i: int| "   "@ + decimal((i + 1) as nat) + ". "@ + list[i])
    }
}

/// The error for building from an empty queue.
pub open spec fn empty_queue_message() -> Seq<char> {
    "Queue is empty. Please add sources first!"@
}

/// The sources kept in a staging file with these contents.
pub fn staged_sources_from(content: &str) -> (r: Vec<String>)
    ensures
        views(r@) == staged_sources(content@),
{
    match parse_string_list(content) {
        Some(list) => list,
        None => {
            let r: Vec<String> = Vec::new();
            assert(views(r@) =~= Seq::<Seq<char>>::empty());
            r
        },
    }
}

/// The contents of a staging file that keeps these sources: always given,
/// and read back as the same sources.
pub fn staging_file_text(sources: &Vec<String>) -> (r: Option<String>)
    ensures
        r is Some,
        r matches Some(text) ==> text@ == pretty_json_string_list(views(sources@)),
        r matches Some(text) ==> staged_sources(text@) == views(sources@),
{
    print_string_list(sources)
}

/// Whether a source is among the staged ones.
pub fn is_staged(sources: &Vec<String>, source: &str) -> (r: bool)
    ensures
        r == views(sources@).contains(source@),
{
    let s = String::from_str(source);
    let mut i: usize = 0;
    while i < sources.len()
        invariant
            i <= sources@.len(),
            s@ == source@,
            forall|j: int| 0 <= j < i ==> sources@[j]@ != source@,
        decreases sources@.len() - i,
    {
        if sources[i] == s {
            assert(views(sources@)[i as int] == source@);
            return true;
        }
        i = i + 1;
    }
    assert(!views(sources@).contains(source@)) by {
        if views(sources@).contains(source@) {
            let j = choose|j: int| 0 <= j < views(sources@).len() && views(sources@)[j] == source@;
            assert(sources@[j]@ == source@);
        }
    }
    false
}

/// Stages a source, as the command line does: it is added unless it is
/// staged already. Tells whether it was added.
pub fn stage_source(sources: &mut Vec<String>, source: &str) -> (added: bool)
    ensures
        added == !views(old(sources)@).contains(source@),
        views(final(sources)@) == staged_after(views(old(sources)@), source@),
{
    if is_staged(sources, source) {
        false
    } else {
        let ghost before = sources@;
        sources.push(String::from_str(source));
        assert(views(sources@) =~= views(before).push(source@));
        true
    }
}

/// Stages a source, as the desktop application does: it is added unless it
/// is staged already or is white space only. Tells whether it was added.
pub fn stage_nonblank_source(sources: &mut Vec<String>, source: &str) -> (added: bool)
    ensures
        added == (!views(old(sources)@).contains(source@) && !is_blank(source@)),
        added ==> views(final(sources)@) == views(old(sources)@).push(source@),
        !added ==> views(final(sources)@) == views(old(sources)@),
        !is_blank(source@) ==> views(final(sources)@) == staged_after(views(old(sources)@), source@),
{
    let cs = crate::text::chars_of(source);
    if blank(cs.as_slice()) || is_staged(sources, source) {
        false
    } else {
        let ghost before = sources@;
        sources.push(String::from_str(source));
        assert(views(sources@) =~= views(before).push(source@));
        true
    }
}

/// The lines that show the queue (see `status_view`).
pub fn status_lines(sources: &Vec<String>) -> (r: Vec<String>)
    ensures
        views(r@) == status_view(views(sources@)),
{
    let mut r: Vec<String> = Vec::new();
    r.push(String::from_str("🗂️  Currently Staged Sources:"));
    if sources.len() == 0 {
        r.push(String::from_str("   (None)"));
        assert(views(r@) =~= status_view(views(sources@)));
        return r;
    }
    let ghost list = views(sources@);
    let mut i: usize = 0;
    while i < sources.len()
        invariant
            i <= sources@.len(),
            list == views(sources@),
            r@.len() == i + 1,
            views(r@)[0] == "🗂️  Currently Staged Sources:"@,
            forall|j: int| 0 <= j < i ==> #[trigger] views(r@)[j + 1] == "   "@ + decimal((j + 1) as nat) + ". "@ + list[j],
        decreases sources@.len() - i,
    {
        let mut line = String::from_str("   ");
        let number = decimal_string(i + 1);
        line.append(number.as_str());
        line.append(". ");
        line.append(sources[i].as_str());
        let ghost before = r@;
        r.push(line);
        assert forall|j: int| 0 <= j < i + 1 implies #[trigger] views(r@)[j + 1] == "   "@ + decimal((j + 1) as nat) + ". "@ + list[j] by {
            if j < i {
                assert(views(r@)[j + 1] == views(before)[j + 1]);
            }
        }
        i = i + 1;
    }
    assert(views(r@) =~= status_view(list));
    r
}

/// Refuses to build from an empty queue.
pub fn check_queue(sources: &Vec<String>) -> (r: Result<(), String>)
    ensures
        r is Err <==> sources@.len() == 0,
        r matches Err(msg) ==> msg@ == empty_queue_message(),
{
    if sources.len() == 0 {
        Err(String::from_str("Queue is empty. Please add sources first!"))
    } else {
        Ok(())
    }
}

// ---------------------------------------------------------------------------
// Laws of the queue
// ---------------------------------------------------------------------------

/// Law: a staged source is in the queue afterwards.
pub proof fn law_staged_source_is_kept(list: Seq<Seq<char>>, source: Seq<char>)
    ensures
        staged_after(list, source).contains(source),
{
    if !list.contains(source) {
        assert(list.push(source)[list.len() as int] == source);
    }
}

/// Law: staging a source twice stages it once.
pub proof fn law_staging_is_idempotent(list: Seq<Seq<char>>, source: Seq<char>)
    ensures
        staged_after(staged_after(list, source), source) == staged_after(list, source),
{
    law_staged_source_is_kept(list, source);
}

/// Law: a queue without repeated sources stays without them.
pub proof fn law_queue_stays_unique(list: Seq<Seq<char>>, source: Seq<char>)
    requires
        list.no_duplicates(),
    ensures
        staged_after(list, source).no_duplicates(),
{
    if !list.contains(source) {
        let l2 = list.push(source);
        assert forall|i: int, j: int| 0 <= i < l2.len() && 0 <= j < l2.len() && i != j implies l2[i] != l2[j] by {
            if i == list.len() as int {
                assert(l2[j] == list[j]);
            } else if j == list.len() as int {
                assert(l2[i] == list[i]);
            } else {
                assert(l2[i] == list[i] && l2[j] == list[j]);
            }
        }
    }
}

/// Law: staging leaves the sources staged before where they were.
pub proof fn law_staging_keeps_order(list: Seq<Seq<char>>, source: Seq<char>, i: int)
    requires
        0 <= i < list.len(),
    ensures
        staged_after(list, source)[i] == list[i],
{
}

/// Law: staging sources one after another, none of them staged before and
/// no two the same, keeps every one of them, in the order they came: there
/// is no limit on how many.
pub proof fn law_staging_in_turn_keeps_all(list: Seq<Seq<char>>, sources: Seq<Seq<char>>)
    requires
        (list + sources).no_duplicates(),
    ensures
        staged_all(list, sources) == list + sources,
    decreases sources.len(),
{
    if sources.len() > 0 {
        let init = sources.drop_last();
        let x = sources.last();
        assert((list + init).no_duplicates()) by {
            assert forall|i: int, j: int| 0 <= i < (list + init).len() && 0 <= j < (list + init).len()
                && i != j implies (list + init)[i] != (list + init)[j] by {
                assert((list + init)[i] == (list + sources)[i]);
                assert((list + init)[j] == (list + sources)[j]);
            }
        }
        law_staging_in_turn_keeps_all(list, init);
        assert(!(list + init).contains(x)) by {
            if (list + init).contains(x) {
                let k = choose|k: int| 0 <= k < (list + init).len() && (list + init)[k] == x;
                assert((list + sources)[k] == x);
                assert((list + sources)[(list + sources).len() - 1] == x);
            }
        }
        assert((list + init).push(x) =~= list + sources);
    }
}

/// Law: after staging a source into a queue without repeated sources, the
/// source is in the queue exactly once.
pub proof fn law_staged_source_appears_once(list: Seq<Seq<char>>, source: Seq<char>)
    requires
        list.no_duplicates(),
    ensures
        exists|i: int| {
            &&& 0 <= i < staged_after(list, source).len()
            &&& staged_after(list, source)[i] == source
            &&& forall|j: int| 0 <= j < staged_after(list, source).len() && j != i
                ==> staged_after(list, source)[j] != source
        },
{
    law_staged_source_is_kept(list, source);
    law_queue_stays_unique(list, source);
    let l2 = staged_after(list, source);
    let i = choose|i: int| 0 <= i < l2.len() && l2[i] == source;
    assert forall|j: int| 0 <= j < l2.len() && j != i implies l2[j] != source by {}
}

/// Law: the status numbers every staged source. Under the heading there
/// is one line per source, in order, line `i + 1` reading `   `, the number
/// `i + 1`, `. ` and the source; only an empty queue shows `   (None)`,
/// as its one line.
pub proof fn law_status_numbers_every_source(list: Seq<Seq<char>>)
    ensures
        status_view(list)[0] == "🗂️  Currently Staged Sources:"@,
        list.len() == 0 ==> status_view(list) == seq!["🗂️  Currently Staged Sources:"@, "   (None)"@],
        list.len() > 0 ==> status_view(list).len() == list.len() + 1,
        list.len() > 0 ==> forall|i: int| 0 <= i < list.len() ==> #[trigger] status_view(list)[i + 1]
            == "   "@ + decimal((i + 1) as nat) + ". "@ + list[i],
        list.len() > 0 ==> !status_view(list).contains("   (None)"@),
{
    reveal_strlit("   (None)");
    reveal_strlit("   ");
    reveal_strlit("🗂️  Currently Staged Sources:");
    if list.len() == 0 {
        assert(status_view(list) =~= seq!["🗂️  Currently Staged Sources:"@, "   (None)"@]);
    } else {
        let v = status_view(list);
        assert forall|j: int| 0 <= j < v.len() implies v[j] != "   (None)"@ by {
            if j == 0 {
                assert(v[0][0] != "   (None)"@[0]);
            } else {
                let n = j as nat;
                lemma_decimal_starts_with_digit(n);
                let line = "   "@ + decimal(n) + ". "@ + list[j - 1];
                assert(v[j] == line);
                assert(line[3] == decimal(n)[0]);
                assert(line[3] != "   (None)"@[3]);
            }
        }
    }
}

/// The first character of a numeral is a digit.
proof fn lemma_decimal_starts_with_digit(n: nat)
    ensures
        decimal(n).len() > 0,
        48 <= (decimal(n)[0] as int) <= 57,
    decreases n,
{
    if n >= 10 {
        lemma_decimal_starts_with_digit(n / 10);
        assert(decimal(n)[0] == decimal(n / 10)[0]);
    } else {
        assert(decimal(n)[0] == digit(n));
        assert((digit(n) as int) == n + 48);
    }
}

} // verus!
