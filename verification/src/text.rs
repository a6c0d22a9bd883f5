//! Joining of text segments.

use string_wizard::{Joiner, JoinerOptions, MagicString};
use vstd::prelude::*;

verus! {

/// The segments `parts`, in order, with `separator` between each two
/// neighbours.
pub open spec fn joined(parts: Seq<Seq<char>>, separator: Seq<char>) -> Seq<char>
    decreases parts.len(),
{
    if parts.len() == 0 {
        Seq::empty()
    } else if parts.len() == 1 {
        parts[0]
    } else {
        joined(parts.drop_last(), separator) + separator + parts.last()
    }
}

/// The longest text, in bytes of UTF-8, that one source of a joiner can hold.
pub const MAX_SEGMENT_BYTES: usize = 0xffff_ffff;

/// The number of bytes that `text` takes in UTF-8.
pub open spec fn byte_len(text: Seq<char>) -> nat {
    vstd::utf8::encode_utf8(text).len()
}

/// Counts the bytes that `text` takes in UTF-8.
pub fn byte_length(text: &str) -> (n: usize)
    ensures
        n == byte_len(text@),
{
    text.as_bytes().len()
}

/// `string_wizard::Joiner`, which collects sources and joins them. What it
/// holds is spoken of through `joiner_sources` and `joiner_separator`.
#[verifier::external_type_specification]
#[verifier::external_body]
pub struct ExJoiner<'s>(Joiner<'s>);

/// The sources that were appended to a joiner, oldest first.
pub uninterp spec fn joiner_sources(joiner: Joiner<'static>) -> Seq<Seq<char>>;

/// The separator that a joiner was made with.
pub uninterp spec fn joiner_separator(joiner: Joiner<'static>) -> Seq<char>;

/// `Joiner::with_options` with a separator: the new joiner holds no source
/// and keeps the separator.
#[verifier::external_body]
pub(crate) fn joiner_with_separator(separator: String) -> (joiner: Joiner<'static>)
    ensures
        joiner_sources(joiner) == Seq::<Seq<char>>::empty(),
        joiner_separator(joiner) == separator@,
{
    Joiner::with_options(JoinerOptions { separator: Some(separator) })
}

/// `Joiner::append` of a fresh `MagicString` over `text`: the text becomes
/// the joiner's last source, the others and the separator stay. A
/// `MagicString` addresses its source with 32-bit offsets, so the text may
/// not be longer than `MAX_SEGMENT_BYTES`.
#[verifier::external_body]
pub(crate) fn joiner_append(joiner: &mut Joiner<'static>, text: &str)
    requires
        byte_len(text@) <= MAX_SEGMENT_BYTES,
    ensures
        joiner_sources(*final(joiner)) == joiner_sources(*old(joiner)).push(text@),
        joiner_separator(*final(joiner)) == joiner_separator(*old(joiner)),
{
    joiner.append(MagicString::new(text.to_owned()));
}

/// `Joiner::join`: the sources in the order of their appending, with the
/// separator between each two neighbours.
#[verifier::external_body]
pub(crate) fn joiner_join(joiner: &Joiner<'static>) -> (text: String)
    ensures
        text@ == joined(joiner_sources(*joiner), joiner_separator(*joiner)),
{
    joiner.join()
}

/// The members of `parts` that hold at least one character, in order.
pub open spec fn nonempty(parts: Seq<Seq<char>>) -> Seq<Seq<char>> {
    parts.filter(|p: Seq<char>| p.len() > 0)
}

/// The text of each member of `parts`.
pub open spec fn texts(parts: Seq<&str>) -> Seq<Seq<char>> {
    parts.map_values(|p: &str| p@)
}

/// Whether every member of `parts` is short enough to be joined.
pub open spec fn all_fit(parts: Seq<Seq<char>>) -> bool {
    forall|i: int| 0 <= i < parts.len() ==> byte_len(#[trigger] parts[i]) <= MAX_SEGMENT_BYTES
}

/// Joins the segments of `parts` that are not empty, in order, with one line
/// break between each two neighbours. Nothing is joined where a segment is
/// longer than `MAX_SEGMENT_BYTES`.
pub fn join_lines(parts: &Vec<&str>) -> (text: Option<String>)
    ensures
        match text {
            Some(text) => all_fit(texts(parts@)) && text@ == joined(
                nonempty(texts(parts@)),
                "\n"@,
            ),
            None => !all_fit(texts(parts@)),
        },
{
    let mut joiner = joiner_with_separator("\n".to_string());
    let ghost all = texts(parts@);
    let n = parts.len();
    let mut i: usize = 0;
    proof {
        assert(all.take(0) =~= Seq::<Seq<char>>::empty());
        reveal_with_fuel(Seq::filter, 1);
    }
    while i < n
        invariant
            i <= n,
            n == parts.len(),
            all == texts(parts@),
            all_fit(all.take(i as int)),
            joiner_sources(joiner) == nonempty(all.take(i as int)),
            joiner_separator(joiner) == "\n"@,
        decreases n - i,
    {
        let part: &str = parts[i];
        proof {
            let next = all.take(i as int + 1);
            assert(next.drop_last() =~= all.take(i as int));
            assert(next.last() == part@);
            reveal_with_fuel(Seq::filter, 1);
        }
        if byte_length(part) > MAX_SEGMENT_BYTES {
            assert(all[i as int] == part@);
            return None;
        }
        if !part.is_empty() {
            joiner_append(&mut joiner, part);
        }
        proof {
            let next = all.take(i as int + 1);
            assert forall|k: int| 0 <= k < next.len() implies byte_len(#[trigger] next[k])
                <= MAX_SEGMENT_BYTES by {
                if k < i {
                    assert(all.take(i as int)[k] == next[k]);
                }
            }
        }
        i += 1;
    }
    proof {
        assert(all.take(n as int) =~= all);
    }
    Some(joiner_join(&joiner))
}

/// The text of each member of `parts`.
pub open spec fn views(parts: Seq<String>) -> Seq<Seq<char>> {
    parts.map_values(|p: String| p@)
}

/// Joins `parts`, in order, with `separator` between each two neighbours.
pub fn join_with(parts: &Vec<String>, separator: &str) -> (text: String)
    ensures
        text@ == joined(views(parts@), separator@),
{
    let mut text = String::new();
    let n = parts.len();
    let ghost all = views(parts@);
    let mut i: usize = 0;
    proof {
        assert(all.take(0) =~= Seq::<Seq<char>>::empty());
    }
    while i < n
        invariant
            i <= n,
            n == parts.len(),
            all == views(parts@),
            text@ == joined(all.take(i as int), separator@),
        decreases n - i,
    {
        proof {
            let next = all.take(i as int + 1);
            assert(next.drop_last() =~= all.take(i as int));
            assert(next.last() == parts[i as int]@);
            if i == 0 {
                assert(text@ + parts[i as int]@ =~= parts[i as int]@);
            }
        }
        if i > 0 {
            text.append(separator);
        }
        text.append(parts[i].as_str());
        i += 1;
    }
    proof {
        assert(all.take(n as int) =~= all);
    }
    text
}

/// One binding of an import or export list: the name alone where both sides
/// agree, else `first as second`.
pub open spec fn binding(first: Seq<char>, second: Seq<char>) -> Seq<char> {
    if first == second {
        first
    } else {
        first + " as "@ + second
    }
}

/// The statement that imports `bindings` from `source`; without bindings,
/// the statement that imports the source for its effects alone.
pub open spec fn import_statement(bindings: Seq<Seq<char>>, source: Seq<char>) -> Seq<char> {
    if bindings.len() == 0 {
        "import \""@ + source + "\";"@
    } else {
        "import { "@ + joined(bindings, ", "@) + " } from \""@ + source + "\";"@
    }
}

/// The statement that exports `bindings`.
pub open spec fn export_statement(bindings: Seq<Seq<char>>) -> Seq<char> {
    "export { "@ + joined(bindings, ", "@) + " };"@
}

/// Writes one binding of an import or export list.
pub fn binding_text(first: &String, second: &String) -> (text: String)
    ensures
        text@ == binding(first@, second@),
{
    if *first == *second {
        first.clone()
    } else {
        let mut text = first.clone();
        text.append(" as ");
        text.append(second.as_str());
        text
    }
}

/// Writes the statement that imports `bindings` from `source`.
pub fn import_statement_text(bindings: &Vec<String>, source: &str) -> (text: String)
    ensures
        text@ == import_statement(views(bindings@), source@),
{
    if bindings.len() == 0 {
        let mut text = "import \"".to_string();
        text.append(source);
        text.append("\";");
        text
    } else {
        let list = join_with(bindings, ", ");
        let mut text = "import { ".to_string();
        text.append(list.as_str());
        text.append(" } from \"");
        text.append(source);
        text.append("\";");
        text
    }
}

/// Writes the statement that exports `bindings`.
pub fn export_statement_text(bindings: &Vec<String>) -> (text: String)
    ensures
        text@ == export_statement(views(bindings@)),
{
    let list = join_with(bindings, ", ");
    let mut text = "export { ".to_string();
    text.append(list.as_str());
    text.append(" };");
    text
}

} // verus!
