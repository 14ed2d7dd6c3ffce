//! The pre-flight answer: for this read, whose network cards may write into my memory?
//!
//! A client asks before it reads, so that it can address every holder before the first
//! of them writes. The answer is computed from the read's offset and the ring alone: it
//! moves no byte of the object and needs no object length.

use std::ops::Range;

use vstd::prelude::*;

use crate::answer::{failure, ErrorCode, Failure, GetOutput};
use crate::chunk::{chunks_in, index_below_count, key_of_chunk, ChunkConfig};
use crate::cluster::{chunk_sources, names, sources_of, NodeId};
use crate::text::{
    a_division_leaves_one_character_out, chars_of, decimal, digit, digit_char, number, opt_text,
    parse_number, pieces, pieces_stand_between, push_decimal, push_text, split_at_each, split_once,
    split_once_at, string_of, texts, trim, trimmed,
};

verus! {

/// Request header that asks for the endpoint list in place of the object.
pub const GET_ENDPOINTS_HEADER: &'static str = "x-pacer-get-endpoints";

/// Response header whose presence says that the body is an endpoint document.
pub const ENDPOINTS_HEADER: &'static str = "x-pacer-endpoints";

/// Version of the document, and that header's value.
pub const ENDPOINTS_VERSION: u32 = 1;

/// Outcome: endpoints were named.
pub const OUTCOME_SERVED: &'static str = "served";

/// Outcome: there is nothing to prime on this node.
pub const OUTCOME_NO_PLANE: &'static str = "no_plane";

/// Outcome: the header's value did not parse.
pub const OUTCOME_MALFORMED: &'static str = "malformed";

/// The most holder nodes an answer names where the fan-out is left as shipped.
pub const MAX_ENDPOINT_NODES: usize = 64;

/// How many windows the answer looks at and how many nodes it names: the width of the
/// delivery fan-out, and at least one.
pub fn max_endpoint_nodes(parallelism: usize) -> (n: usize)
    ensures
        n == if parallelism == 0 {
            1
        } else {
            parallelism
        },
{
    if parallelism < 1 {
        1
    } else {
        parallelism
    }
}

// ---- the question ----

/// What a client is about to read.
#[derive(Clone, Copy, Debug, PartialEq, Eq)]
pub struct EndpointsAsk {
    /// First byte that the read will touch.
    pub offset: u64,
    /// How many bytes it will touch, or `None` for all from the offset on.
    pub length: Option<u64>,
}

impl Default for EndpointsAsk {
    fn default() -> (a: Self)
        ensures
            a == whole_object(),
    {
        EndpointsAsk { offset: 0, length: None }
    }
}

/// An answer is of the first version and names sixty-four nodes at most.
pub proof fn what_bounds_an_answer()
    ensures
        ENDPOINTS_VERSION == 1,
        MAX_ENDPOINT_NODES == 64,
        ENDPOINTS_HEADER@ == "x-pacer-endpoints"@,
        OUTCOME_SERVED@ == "served"@,
        OUTCOME_NO_PLANE@ == "no_plane"@,
        OUTCOME_MALFORMED@ == "malformed"@,
{
}

/// A read of the whole object.
pub open spec fn whole_object() -> EndpointsAsk {
    EndpointsAsk { offset: 0, length: None }
}

/// What is wrong with a question.
#[derive(Clone, Copy, Debug, PartialEq, Eq, Structural)]
pub enum AskFault {
    /// A field is not a name and a value.
    NotNameValue,
    /// The offset is no number.
    BadOffset,
    /// The length is no number.
    BadLength,
    /// The field's name is not known.
    UnknownField,
}

/// A question that cannot be read, with the text at fault.
#[derive(Debug)]
pub struct AskError {
    /// What is wrong.
    pub fault: AskFault,
    /// The field, the value or the name at fault.
    pub text: String,
}

/// What one field makes of the question so far.
pub open spec fn read_field(field: Seq<char>, ask: EndpointsAsk) -> Result<
    EndpointsAsk,
    (AskFault, Seq<char>),
> {
    match split_once(field, '=') {
        None => Err((AskFault::NotNameValue, field)),
        Some((name, value)) => if name == "offset"@ {
            match number(value) {
                Some(n) => Ok(EndpointsAsk { offset: n, length: ask.length }),
                None => Err((AskFault::BadOffset, value)),
            }
        } else if name == "length"@ {
            match number(value) {
                Some(n) => Ok(EndpointsAsk { offset: ask.offset, length: Some(n) }),
                None => Err((AskFault::BadLength, value)),
            }
        } else {
            Err((AskFault::UnknownField, name))
        },
    }
}

/// What the fields, read in order, make of the question: a field of white space says
/// nothing, and the first that cannot be read is what is wrong.
pub open spec fn read_fields(fields: Seq<Seq<char>>, ask: EndpointsAsk) -> Result<
    EndpointsAsk,
    (AskFault, Seq<char>),
>
    decreases fields.len(),
{
    if fields.len() == 0 {
        Ok(ask)
    } else {
        let field = trimmed(fields[0]);
        if field.len() == 0 {
            read_fields(fields.skip(1), ask)
        } else {
            match read_field(field, ask) {
                Ok(next) => read_fields(fields.skip(1), next),
                Err(e) => Err(e),
            }
        }
    }
}

/// A field is a name and a value: an offset or a length sets the number that its value reads, and
/// leaves the other as it is; a value that reads no number, another name, and a text without the
/// sign between them are faults, told with the value, the name and the text.
pub proof fn what_a_field_says(
    name: Seq<char>,
    value: Seq<char>,
    text: Seq<char>,
    ask: EndpointsAsk,
)
    requires
        !name.contains('='),
        !text.contains('='),
    ensures
        ({
            let told = read_field(name + seq!['='] + value, ask);
            &&& name == "offset"@ ==> match number(value) {
                Some(n) => told matches Ok(next) && next.offset == n && next.length == ask.length,
                None => told == Err::<EndpointsAsk, _>((AskFault::BadOffset, value)),
            }
            &&& name == "length"@ ==> match number(value) {
                Some(n) => told matches Ok(next) && next.length == Some(n) && next.offset
                    == ask.offset,
                None => told == Err::<EndpointsAsk, _>((AskFault::BadLength, value)),
            }
            &&& name != "offset"@ && name != "length"@ ==> told == Err::<EndpointsAsk, _>(
                (AskFault::UnknownField, name),
            )
        }),
        read_field(text, ask) == Err::<EndpointsAsk, _>((AskFault::NotNameValue, text)),
{
    reveal_strlit("offset");
    reveal_strlit("length");
    assert("offset"@[0] != "length"@[0]);
    a_division_leaves_one_character_out(name, '=', value);
    a_division_leaves_one_character_out(text, '=', value);
}

/// Fields are read one after the other, each from what those before it made of the question, and
/// the first fault ends the reading. White space around a field, and a field of nothing else, say
/// nothing.
pub proof fn fields_are_read_in_order(
    front: Seq<Seq<char>>,
    back: Seq<Seq<char>>,
    one: Seq<char>,
    ask: EndpointsAsk,
)
    ensures
        read_fields(front + back, ask) == match read_fields(front, ask) {
            Ok(next) => read_fields(back, next),
            Err(e) => Err(e),
        },
        trimmed(one).len() == 0 ==> read_fields(seq![one], ask) == Ok::<
            EndpointsAsk,
            (AskFault, Seq<char>),
        >(ask),
        trimmed(one).len() > 0 ==> read_fields(seq![one], ask) == read_field(trimmed(one), ask),
    decreases front.len(),
{
    reveal_with_fuel(read_fields, 2);
    assert(seq![one].skip(1) =~= Seq::<Seq<char>>::empty());
    if front.len() == 0 {
        assert(front + back =~= back);
    } else {
        let rest = front.skip(1);
        assert((front + back).skip(1) =~= rest + back);
        assert((front + back)[0] == front[0]);
        let field = trimmed(front[0]);
        if field.len() == 0 {
            fields_are_read_in_order(rest, back, one, ask);
        } else if let Ok(next) = read_field(field, ask) {
            fields_are_read_in_order(rest, back, one, next);
        }
    }
}

/// The question that a header value asks: fields divided by semicolons.
pub open spec fn question(raw: Seq<char>) -> Result<EndpointsAsk, (AskFault, Seq<char>)> {
    read_fields(pieces(raw, ';'), whole_object())
}

/// One field, read.
fn parse_field(field: &[char], ask: EndpointsAsk) -> (r: Result<EndpointsAsk, AskError>)
    ensures
        match r {
            Ok(a) => read_field(field@, ask) == Ok::<EndpointsAsk, (AskFault, Seq<char>)>(a),
            Err(e) => read_field(field@, ask) == Err::<EndpointsAsk, (AskFault, Seq<char>)>(
                (e.fault, e.text@),
            ),
        },
{
    match split_once_at(field, '=') {
        None => Err(AskError { fault: AskFault::NotNameValue, text: string_of(field) }),
        Some((name, value)) => {
            let word = string_of(name);
            if word.as_str().eq("offset") {
                match parse_number(value) {
                    Some(n) => Ok(EndpointsAsk { offset: n, length: ask.length }),
                    None => Err(AskError { fault: AskFault::BadOffset, text: string_of(value) }),
                }
            } else if word.as_str().eq("length") {
                match parse_number(value) {
                    Some(n) => Ok(EndpointsAsk { offset: ask.offset, length: Some(n) }),
                    None => Err(AskError { fault: AskFault::BadLength, text: string_of(value) }),
                }
            } else {
                Err(AskError { fault: AskFault::UnknownField, text: word })
            }
        },
    }
}

/// Read the question that a header value asks.
pub fn read_question(raw: &str) -> (r: Result<EndpointsAsk, AskError>)
    ensures
        match r {
            Ok(a) => question(raw@) == Ok::<EndpointsAsk, (AskFault, Seq<char>)>(a),
            Err(e) => question(raw@) == Err::<EndpointsAsk, (AskFault, Seq<char>)>(
                (e.fault, e.text@),
            ),
        },
{
    let chars = chars_of(raw);
    let fields = split_at_each(chars.as_slice(), ';');
    let ghost all = texts(fields@);
    let mut ask = EndpointsAsk { offset: 0, length: None };
    let mut i: usize = 0;
    assert(all.skip(0) =~= all);
    while i < fields.len()
        invariant
            i <= fields@.len(),
            all == texts(fields@),
            question(raw@) == read_fields(all.skip(i as int), ask),
        decreases fields@.len() - i,
    {
        let field = trim(fields[i]);
        proof {
            assert(all[i as int] == fields@[i as int]@);
            assert(all.skip(i as int).skip(1) =~= all.skip(i + 1));
        }
        if field.len() > 0 {
            match parse_field(field, ask) {
                Ok(next) => {
                    ask = next;
                },
                Err(e) => {
                    return Err(e);
                },
            }
        }
        i += 1;
    }
    assert(all.skip(i as int).len() == 0);
    Ok(ask)
}

/// How the standard library writes a text for a programmer: in quotes, with escapes.
pub uninterp spec fn debug_text(text: Seq<char>) -> Seq<char>;

/// The `Debug` form of a string slice.
#[verifier::external_body]
fn quoted(text: &str) -> (r: String)
    ensures
        r@ == debug_text(text@),
{
    format!("{text:?}")
}

/// A question is of the whole object where it says nothing, and its fields stand between the
/// semicolons.
pub proof fn fields_stand_between_semicolons(a: Seq<char>, b: Seq<char>)
    requires
        !a.contains(';'),
    ensures
        question(a) == read_fields(seq![a], (EndpointsAsk { offset: 0, length: None })),
        question(a + seq![';'] + b) == read_fields(
            seq![a] + pieces(b, ';'),
            (EndpointsAsk { offset: 0, length: None }),
        ),
{
    pieces_stand_between(a, ';', b);
}

/// A field that names a number, as a client writes it, sets that number.
proof fn lemma_written_field(name: Seq<char>, n: u64, ask: EndpointsAsk)
    requires
        name == "offset"@ || name == "length"@,
    ensures
        ({
            let field = name + seq!['='] + decimal(n as nat);
            &&& !field.contains(';')
            &&& read_fields(seq![field], ask) == Ok::<_, (AskFault, Seq<char>)>(
                if name == "offset"@ {
                    EndpointsAsk { offset: n, length: ask.length }
                } else {
                    EndpointsAsk { offset: ask.offset, length: Some(n) }
                },
            )
        }),
{
    reveal_strlit("offset");
    reveal_strlit("length");
    let digits = decimal(n as nat);
    let field = name + seq!['='] + digits;
    crate::text::decimal_reads_back(n as nat);
    crate::text::number_of_decimal(n);
    crate::text::decimal_holds_no(n as nat, ';');
    assert forall|i: int| 0 <= i < field.len() implies field[i] != ';' by {
        if i > name.len() {
            assert(field[i] == digits[i - name.len() - 1]);
        }
    }
    let none = Seq::<char>::empty();
    assert(field[0] == 'o' || field[0] == 'l');
    assert(field.last() == digits[digits.len() - 1]);
    assert(crate::text::is_digit(digits[digits.len() - 1]));
    crate::text::trimming_takes_white_space_off(none, field, none);
    assert(none + field + none =~= field);
    assert(!name.contains('='));
    what_a_field_says(name, digits, none, ask);
    fields_are_read_in_order(Seq::empty(), Seq::empty(), field, ask);
}

/// A question reads back as it was asked, whichever of its numbers comes first.
pub proof fn a_question_reads_back(offset: u64, length: u64)
    ensures
        ({
            let o = "offset"@ + seq!['='] + decimal(offset as nat);
            let l = "length"@ + seq!['='] + decimal(length as nat);
            let both = Ok::<_, (AskFault, Seq<char>)>(
                EndpointsAsk { offset, length: Some(length) },
            );
            &&& question(o + seq![';'] + l) == both
            &&& question(l + seq![';'] + o) == both
            &&& question(o) == Ok::<_, (AskFault, Seq<char>)>(EndpointsAsk { offset, length: None })
            &&& question(l) == Ok::<_, (AskFault, Seq<char>)>(
                EndpointsAsk { offset: 0, length: Some(length) },
            )
        }),
{
    reveal_strlit("offset");
    reveal_strlit("length");
    assert("offset"@[0] != "length"@[0]);
    let o = "offset"@ + seq!['='] + decimal(offset as nat);
    let l = "length"@ + seq!['='] + decimal(length as nat);
    let start = EndpointsAsk { offset: 0, length: None };
    lemma_written_field("offset"@, offset, start);
    lemma_written_field("length"@, length, start);
    lemma_written_field("length"@, length, (EndpointsAsk { offset, length: None }));
    lemma_written_field("offset"@, offset, (EndpointsAsk { offset: 0, length: Some(length) }));
    fields_stand_between_semicolons(o, l);
    fields_stand_between_semicolons(l, o);
    pieces_stand_between(o, ';', l);
    pieces_stand_between(l, ';', o);
    fields_are_read_in_order(seq![o], seq![l], o, start);
    fields_are_read_in_order(seq![l], seq![o], o, start);
}

/// What a fault is told as, given the `Debug` form of the text at fault.
pub open spec fn fault_text(fault: AskFault, shown: Seq<char>) -> Seq<char> {
    match fault {
        AskFault::NotNameValue => shown + " is not name=value"@,
        AskFault::BadOffset => "offset="@ + shown + " is not a byte offset"@,
        AskFault::BadLength => "length="@ + shown + " is not a byte count"@,
        AskFault::UnknownField => "unknown field "@ + shown + " in "@ + GET_ENDPOINTS_HEADER@,
    }
}

/// Tell a fault, given the `Debug` form of the text at fault.
pub fn tell_fault(fault: AskFault, shown: &str) -> (r: String)
    ensures
        r@ == fault_text(fault, shown@),
{
    let mut out = String::new();
    match fault {
        AskFault::NotNameValue => {
            push_text(&mut out, shown);
            push_text(&mut out, " is not name=value");
        },
        AskFault::BadOffset => {
            push_text(&mut out, "offset=");
            push_text(&mut out, shown);
            push_text(&mut out, " is not a byte offset");
        },
        AskFault::BadLength => {
            push_text(&mut out, "length=");
            push_text(&mut out, shown);
            push_text(&mut out, " is not a byte count");
        },
        AskFault::UnknownField => {
            push_text(&mut out, "unknown field ");
            push_text(&mut out, shown);
            push_text(&mut out, " in ");
            push_text(&mut out, GET_ENDPOINTS_HEADER);
        },
    }
    assert(out@ =~= fault_text(fault, shown@));
    out
}

impl EndpointsAsk {
    /// Read the question that a header value asks, or tell what is wrong with it. An
    /// empty value is the whole object.
    pub fn parse(raw: &str) -> (r: Result<Self, String>)
        ensures
            match question(raw@) {
                Ok(a) => r == Ok::<EndpointsAsk, String>(a),
                Err(e) => r matches Err(why) && why@ == fault_text(e.0, debug_text(e.1)),
            },
    {
        match read_question(raw) {
            Ok(ask) => Ok(ask),
            Err(e) => {
                let shown = quoted(e.text.as_str());
                Err(tell_fault(e.fault, shown.as_str()))
            },
        }
    }
}

// ---- the windows ----

/// A fault is told with the text at fault whole, between what says what is wrong with it.
pub proof fn a_fault_shows_its_text(shown: Seq<char>)
    ensures
        fault_text(AskFault::NotNameValue, shown) == shown + " is not name=value"@,
        fault_text(AskFault::BadOffset, shown) == "offset="@ + shown + " is not a byte offset"@,
        fault_text(AskFault::BadLength, shown) == "length="@ + shown + " is not a byte count"@,
        fault_text(AskFault::UnknownField, shown) == "unknown field "@ + shown + " in "@
            + "x-pacer-get-endpoints"@,
{
}

/// The chunks whose holders an answer names: those of the read, from its first chunk on
/// and at least that one, but no more than `cap` of them. No position goes past the largest
/// number.
pub open spec fn windows_asked(ask: EndpointsAsk, size: nat, cap: nat) -> (nat, nat) {
    let first = ask.offset as nat / size;
    let next = if first + 1 > u64::MAX {
        u64::MAX as nat
    } else {
        first + 1
    };
    let ceiling = if first + cap > u64::MAX {
        u64::MAX as nat
    } else {
        first + cap
    };
    let last = match ask.length {
        Some(len) => {
            let stop = if ask.offset + len > u64::MAX {
                u64::MAX as nat
            } else {
                (ask.offset + len) as nat
            };
            let end = chunks_in(size, stop);
            let end = if end < next {
                next
            } else {
                end
            };
            if end > ceiling {
                ceiling
            } else {
                end
            }
        },
        None => ceiling,
    };
    (first, last)
}

/// The first window is the one that holds the read's first byte. A read of unknown length asks for
/// as many windows as it may; one of a known length asks, up to that many, for those that hold
/// any of its bytes, and for the first one in any case.
pub proof fn which_windows_are_asked(ask: EndpointsAsk, size: nat, cap: nat, index: nat)
    requires
        size > 0,
    ensures
        ({
            let (first, last) = windows_asked(ask, size, cap);
            &&& first * size <= ask.offset < (first + 1) * size
            &&& last <= u64::MAX
            &&& ask.length is None && first + cap <= u64::MAX ==> last == first + cap
            &&& ask.length is None && first + cap > u64::MAX ==> last == u64::MAX
            &&& ask.length is Some && first < u64::MAX ==> {
                let len = ask.length->Some_0;
                let whole = ask.offset + len <= u64::MAX;
                let fits = first + cap <= u64::MAX;
                &&& whole && fits ==> (first <= index < last <==> first <= index < first + cap && (
                index == first || index * size < ask.offset + len))
                &&& whole && !fits ==> (first <= index < last <==> first <= index < u64::MAX && (
                index == first || index * size < ask.offset + len))
                &&& !whole && fits ==> (first <= index < last <==> first <= index < first + cap && (
                index == first || index * size < u64::MAX))
                &&& !whole && !fits ==> (first <= index < last <==> first <= index < u64::MAX && (
                index == first || index * size < u64::MAX))
            }
        }),
{
    let first = ask.offset as nat / size;
    vstd::arithmetic::div_mod::lemma_fundamental_div_mod(ask.offset as int, size as int);
    vstd::arithmetic::div_mod::lemma_mod_bound(ask.offset as int, size as int);
    assert(first * size == size * first) by (nonlinear_arith);
    assert((first + 1) * size == first * size + size) by (nonlinear_arith);
    if let Some(len) = ask.length {
        let stop = if ask.offset + len <= u64::MAX {
            (ask.offset + len) as nat
        } else {
            u64::MAX as nat
        };
        index_below_count(size, index, stop);
        index_below_count(size, stop, stop);
        assert(stop <= stop * size) by (nonlinear_arith)
            requires
                size >= 1,
        ;
        assert(first <= first * size) by (nonlinear_arith)
            requires
                size >= 1,
        ;
    }
}

/// The chunks whose holders the answer names.
pub fn endpoint_windows(ask: EndpointsAsk, chunk: &ChunkConfig, cap: usize) -> (r: Range<u64>)
    ensures
        (r.start as nat, r.end as nat) == windows_asked(ask, chunk.size(), cap as nat),
{
    let size: u64 = chunk.chunk_size();
    let first: u64 = ask.offset / size;
    let next: u64 = first.saturating_add(1);
    let ceiling: u64 = first.saturating_add(cap as u64);
    let last: u64 = match ask.length {
        Some(len) => {
            let end: u64 = chunk.chunk_count(ask.offset.saturating_add(len));
            let end: u64 = if end < next {
                next
            } else {
                end
            };
            if end > ceiling {
                ceiling
            } else {
                end
            }
        },
        None => ceiling,
    };
    Range { start: first, end: last }
}

/// The answer looks at no more than `cap` windows, at the read's first one where it may
/// look at any and that one has a position after it, and at every window of the read up to
/// that many.
pub proof fn the_first_windows_are_asked(ask: EndpointsAsk, size: nat, cap: nat, index: nat)
    requires
        size > 0,
    ensures
        ({
            let (first, last) = windows_asked(ask, size, cap);
            &&& first <= last
            &&& last - first <= cap
            &&& cap > 0 && first < u64::MAX ==> first < last
            &&& (ask.length is Some && ask.offset + ask.length->0 <= u64::MAX && first <= index
                && index * size < ask.offset + ask.length->0 && index - first < cap) ==> index
                < last
        }),
{
    match ask.length {
        Some(len) => {
            if ask.offset + len <= u64::MAX {
                index_below_count(size, index, (ask.offset + len) as nat);
                assert(index <= index * size) by (nonlinear_arith)
                    requires
                        size >= 1,
                ;
            }
        },
        None => {},
    }
}

// ---- the holders ----

/// `seen` with a name added, unless it is listed or the list is full.
pub open spec fn add_name(seen: Seq<Seq<char>>, name: Seq<char>, cap: nat) -> Seq<Seq<char>> {
    if seen.len() < cap && !seen.contains(name) {
        seen.push(name)
    } else {
        seen
    }
}

/// `seen` with all names of a list added in order.
pub open spec fn add_names(seen: Seq<Seq<char>>, more: Seq<Seq<char>>, cap: nat) -> Seq<Seq<char>>
    decreases more.len(),
{
    if more.len() == 0 {
        seen
    } else {
        add_name(add_names(seen, more.drop_last(), cap), more.last(), cap)
    }
}

/// The names of the sources of all windows, each once and in the order in which they are
/// first seen, behind this node's own; `cap` of them, and this node in any case.
pub open spec fn seen_in(
    local: Seq<char>,
    sources: Seq<Seq<Seq<char>>>,
    cap: nat,
) -> Seq<Seq<char>>
    decreases sources.len(),
{
    if sources.len() == 0 {
        seq![local]
    } else {
        add_names(seen_in(local, sources.drop_last(), cap), sources.last(), cap)
    }
}

/// What a list of strings reads.
pub open spec fn strings(list: Seq<String>) -> Seq<Seq<char>> {
    list.map_values(|s: String| s@)
}

/// Append a name unless it is listed or the list is full.
pub fn push_unique(list: &mut Vec<String>, name: &str, cap: usize)
    ensures
        strings(final(list)@) == add_name(strings(old(list)@), name@, cap as nat),
{
    if list.len() >= cap {
        return;
    }
    let mut i: usize = 0;
    while i < list.len()
        invariant
            i <= list@.len(),
            list@ == old(list)@,
            list@.len() < cap,
            forall|j: int| 0 <= j < i ==> strings(list@)[j] != name@,
        decreases list@.len() - i,
    {
        if list[i].as_str().eq(name) {
            assert(strings(list@)[i as int] == name@);
            return;
        }
        i += 1;
    }
    let ghost before = list@;
    list.push(name.to_owned());
    assert(strings(list@) =~= strings(before).push(name@));
}

/// A full list takes no further name.
proof fn lemma_full_list(seen: Seq<Seq<char>>, more: Seq<Seq<char>>, cap: nat)
    requires
        seen.len() >= cap,
    ensures
        add_names(seen, more, cap) == seen,
    decreases more.len(),
{
    if more.len() > 0 {
        lemma_full_list(seen, more.drop_last(), cap);
    }
}

/// The names of several lists of nodes.
pub open spec fn names_of_all(lists: Seq<Vec<NodeId>>) -> Seq<Seq<Seq<char>>> {
    lists.map_values(|l: Vec<NodeId>| names(l@))
}

/// The nodes that could write the read's early windows, given each window's sources.
pub fn names_of_sources(local_node: &str, sources: &[Vec<NodeId>], cap: usize) -> (r: Vec<String>)
    ensures
        strings(r@) == seen_in(local_node@, names_of_all(sources@), cap as nat),
{
    let mut out: Vec<String> = Vec::new();
    out.push(local_node.to_owned());
    let ghost all = names_of_all(sources@);
    assert(strings(out@) =~= seq![local_node@]);
    let mut i: usize = 0;
    while i < sources.len()
        invariant
            i <= sources@.len(),
            all == names_of_all(sources@),
            strings(out@) == seen_in(local_node@, all.take(i as int), cap as nat),
        decreases sources@.len() - i,
    {
        let ghost before = strings(out@);
        let ghost window = names(sources@[i as int]@);
        proof {
            assert(all.take(i + 1).drop_last() =~= all.take(i as int));
            assert(all.take(i + 1).last() == window);
        }
        if out.len() >= cap {
            proof {
                lemma_full_list(before, window, cap as nat);
            }
            i += 1;
            continue;
        }
        let list = &sources[i];
        let mut k: usize = 0;
        assert(window.take(0) =~= Seq::empty());
        while k < list.len()
            invariant
                k <= list@.len(),
                window == names(list@),
                strings(out@) == add_names(before, window.take(k as int), cap as nat),
            decreases list@.len() - k,
        {
            proof {
                assert(window.take(k + 1).drop_last() =~= window.take(k as int));
                assert(window.take(k + 1).last() == list@[k as int]@);
            }
            push_unique(&mut out, list[k].name(), cap);
            k += 1;
        }
        assert(window.take(k as int) =~= window);
        i += 1;
    }
    assert(all.take(i as int) =~= all);
    out
}

/// The sources of consecutive windows, from the homes of their chunks: for each window those
/// that a read of it asks, in the order in which it asks them.
pub open spec fn window_sources(
    local: Seq<char>,
    size: nat,
    object_key: Seq<char>,
    first: nat,
    homes: Seq<Vec<NodeId>>,
) -> Seq<Seq<Seq<char>>> {
    Seq::new(
        homes.len(),
        |i: int|
            names(
                sources_of(homes[i]@, local, key_of_chunk(object_key, size, (first + i) as nat)),
            ),
    )
}

/// Every node that could write the read's early windows, in first-seen order and bounded
/// by `cap`. `homes` are the homes of the windows' chunks, in order; the sources are
/// derived from them as the read path derives them.
pub fn holder_names(
    local_node: &str,
    chunk: &ChunkConfig,
    object_key: &str,
    first: u64,
    homes: Vec<Vec<NodeId>>,
    cap: usize,
) -> (r: Vec<String>)
    requires
        first + homes@.len() <= u64::MAX,
    ensures
        strings(r@) == seen_in(
            local_node@,
            window_sources(local_node@, chunk.size(), object_key@, first as nat, homes@),
            cap as nat,
        ),
{
    let ghost all = homes@;
    let mut sources: Vec<Vec<NodeId>> = Vec::new();
    let mut index: u64 = first;
    for h in it: homes
        invariant
            it.seq() == all,
            sources@.len() == it.index(),
            index == first + it.index(),
            first + all.len() <= u64::MAX,
            forall|i: int|
                0 <= i < sources@.len() ==> (#[trigger] sources@[i])@ == sources_of(
                    all[i]@,
                    local_node@,
                    key_of_chunk(object_key@, chunk.size(), (first + i) as nat),
                ),
    {
        let key = chunk.chunk_key(object_key, index);
        let list = chunk_sources(h, local_node, key.as_str());
        sources.push(list);
        index += 1;
    }
    let out = names_of_sources(local_node, sources.as_slice(), cap);
    assert(names_of_all(sources@) =~= window_sources(
        local_node@,
        chunk.size(),
        object_key@,
        first as nat,
        all,
    ));
    out
}

/// Adding names keeps what is listed and adds nothing twice, nothing over the cap, and
/// nothing that is not in the list.
proof fn lemma_add_names(seen: Seq<Seq<char>>, more: Seq<Seq<char>>, cap: nat)
    ensures
        ({
            let after = add_names(seen, more, cap);
            &&& seen.no_duplicates() ==> after.no_duplicates()
            &&& after.len() >= seen.len()
            &&& after.len() <= seen.len() || after.len() <= cap
            &&& forall|i: int| 0 <= i < seen.len() ==> after[i] == seen[i]
            &&& forall|i: int| seen.len() <= i < after.len() ==> more.contains(#[trigger] after[i])
        }),
    decreases more.len(),
{
    if more.len() > 0 {
        let front = more.drop_last();
        lemma_add_names(seen, front, cap);
        let mid = add_names(seen, front, cap);
        let after = add_names(seen, more, cap);
        assert forall|i: int| seen.len() <= i < after.len() implies more.contains(
            #[trigger] after[i],
        ) by {
            if i < mid.len() {
                assert(mid[i] == after[i]);
                let k = choose|k: int| 0 <= k < front.len() && front[k] == mid[i];
                assert(more[k] == after[i]);
            } else {
                assert(more[more.len() - 1] == after[i]);
            }
        }
    }
}

/// An answer names this node first, no node twice, no more nodes than the cap, and no
/// node that is not a source of one of the windows.
pub proof fn an_answer_names_sources_only(local: Seq<char>, sources: Seq<Seq<Seq<char>>>, cap: nat)
    ensures
        ({
            let named = seen_in(local, sources, cap);
            &&& named.len() >= 1
            &&& named[0] == local
            &&& named.no_duplicates()
            &&& named.len() <= 1 || named.len() <= cap
            &&& forall|i: int|
                1 <= i < named.len() ==> exists|w: int|
                    0 <= w < sources.len() && (#[trigger] sources[w]).contains(#[trigger] named[i])
        }),
    decreases sources.len(),
{
    if sources.len() > 0 {
        let front = sources.drop_last();
        an_answer_names_sources_only(local, front, cap);
        let before = seen_in(local, front, cap);
        lemma_add_names(before, sources.last(), cap);
        let named = seen_in(local, sources, cap);
        assert forall|i: int| 1 <= i < named.len() implies exists|w: int|
            0 <= w < sources.len() && (#[trigger] sources[w]).contains(#[trigger] named[i]) by {
            if i < before.len() {
                assert(named[i] == before[i]);
                let w = choose|w: int|
                    0 <= w < front.len() && (#[trigger] front[w]).contains(before[i]);
                assert(sources[w] == front[w]);
            } else {
                assert(sources[sources.len() - 1].contains(named[i]));
            }
        }
    }
}

/// Adding names to a list that keeps room lists each of them.
proof fn lemma_room_for_all(seen: Seq<Seq<char>>, more: Seq<Seq<char>>, cap: nat)
    requires
        add_names(seen, more, cap).len() < cap,
    ensures
        forall|k: int|
            0 <= k < more.len() ==> add_names(seen, more, cap).contains(#[trigger] more[k]),
        forall|name: Seq<char>| #[trigger]
            seen.contains(name) ==> add_names(seen, more, cap).contains(name),
    decreases more.len(),
{
    if more.len() > 0 {
        let front = more.drop_last();
        let mid = add_names(seen, front, cap);
        let after = add_names(seen, more, cap);
        lemma_room_for_all(seen, front, cap);
        assert forall|name: Seq<char>| #[trigger] mid.contains(name) implies after.contains(
            name,
        ) by {
            let i = choose|i: int| 0 <= i < mid.len() && mid[i] == name;
            assert(after[i] == name);
        }
        assert(after.contains(more.last())) by {
            if !mid.contains(more.last()) {
                assert(after[mid.len() as int] == more.last());
            }
        }
        assert forall|k: int| 0 <= k < more.len() implies after.contains(#[trigger] more[k]) by {
            if k < front.len() {
                assert(front[k] == more[k]);
                assert(mid.contains(front[k]));
            }
        }
        assert forall|name: Seq<char>| #[trigger] seen.contains(name) implies after.contains(
            name,
        ) by {
            assert(mid.contains(name));
        }
    }
}

/// An answer that is not full names every source of every window that was asked about.
pub proof fn an_answer_with_room_names_every_source(
    local: Seq<char>,
    sources: Seq<Seq<Seq<char>>>,
    cap: nat,
    window: int,
    position: int,
)
    requires
        seen_in(local, sources, cap).len() < cap,
        0 <= window < sources.len(),
        0 <= position < sources[window].len(),
    ensures
        seen_in(local, sources, cap).contains(sources[window][position]),
    decreases sources.len(),
{
    let front = sources.drop_last();
    let before = seen_in(local, front, cap);
    lemma_add_names(before, sources.last(), cap);
    lemma_room_for_all(before, sources.last(), cap);
    if window < front.len() {
        assert(front[window] == sources[window]);
        an_answer_with_room_names_every_source(local, front, cap, window, position);
    }
}

/// A name is added behind the others exactly where it is new and there is room.
pub proof fn a_new_name_is_added_where_there_is_room(
    seen: Seq<Seq<char>>,
    name: Seq<char>,
    cap: nat,
)
    ensures
        seen.len() < cap && !seen.contains(name) ==> add_name(seen, name, cap) == seen.push(name),
        seen.len() >= cap || seen.contains(name) ==> add_name(seen, name, cap) == seen,
{
}

/// Names are added in order, and each window's behind those of the windows before it: what an
/// answer about the first windows names, an answer about more of them names first, in the same
/// order.
pub proof fn names_stand_in_the_order_of_the_windows(
    local: Seq<char>,
    front: Seq<Seq<Seq<char>>>,
    back: Seq<Seq<Seq<char>>>,
    seen: Seq<Seq<char>>,
    more: Seq<Seq<char>>,
    name: Seq<char>,
    cap: nat,
)
    ensures
        seen_in(local, front, cap).is_prefix_of(seen_in(local, front + back, cap)),
        seen_in(local, front.push(more), cap) == add_names(seen_in(local, front, cap), more, cap),
        add_names(seen, more.push(name), cap) == add_name(add_names(seen, more, cap), name, cap),
        add_names(seen, Seq::empty(), cap) == seen,
    decreases back.len(),
{
    assert(front.push(more).drop_last() =~= front);
    assert(more.push(name).drop_last() =~= more);
    if back.len() == 0 {
        assert(front + back =~= front);
    } else {
        names_stand_in_the_order_of_the_windows(
            local,
            front,
            back.drop_last(),
            seen,
            more,
            name,
            cap,
        );
        assert((front + back).drop_last() =~= front + back.drop_last());
        lemma_add_names(seen_in(local, front + back.drop_last(), cap), back.last(), cap);
    }
}

/// Each list of strings is read one by one, and so is each list of nodes.
pub proof fn lists_are_read_one_by_one(
    list: Seq<String>,
    lists: Seq<Vec<NodeId>>,
    nodes: Seq<NodeId>,
)
    ensures
        strings(list).len() == list.len(),
        forall|i: int| 0 <= i < list.len() ==> #[trigger] strings(list)[i] == list[i]@,
        names(nodes).len() == nodes.len(),
        forall|i: int| 0 <= i < nodes.len() ==> #[trigger] names(nodes)[i] == nodes[i]@,
        names_of_all(lists).len() == lists.len(),
        forall|i: int|
            0 <= i < lists.len() ==> #[trigger] names_of_all(lists)[i] == names(lists[i]@),
{
}

/// The sources of a window are those that a read of its chunk asks: the first window's chunk is the
/// first, and each further window's the next.
pub proof fn windows_ask_their_own_chunks(
    local: Seq<char>,
    size: nat,
    object_key: Seq<char>,
    first: nat,
    homes: Seq<Vec<NodeId>>,
)
    requires
        homes.len() > 0,
    ensures
        window_sources(local, size, object_key, first, homes).len() == homes.len(),
        window_sources(local, size, object_key, first, homes)[0] == names(
            sources_of(homes[0]@, local, key_of_chunk(object_key, size, first)),
        ),
        window_sources(local, size, object_key, first, homes).skip(1) == window_sources(
            local,
            size,
            object_key,
            first + 1,
            homes.skip(1),
        ),
{
    let a = window_sources(local, size, object_key, first, homes);
    let b = window_sources(local, size, object_key, first + 1, homes.skip(1));
    assert forall|i: int| 0 <= i < b.len() implies a.skip(1)[i] == b[i] by {
        assert((first + (i + 1)) as nat == ((first + 1) + i) as nat);
        assert(homes.skip(1)[i] == homes[i + 1]);
    }
    assert(a.skip(1) =~= b);
}

// ---- the endpoints ----

/// One holder, and the encoded addresses that a client must know before it writes.
#[derive(Debug)]
pub struct HolderEndpoints {
    /// The holder's name.
    pub node: String,
    /// Whether it is the node that answers.
    pub local: bool,
    /// Its addresses, as it would announce them.
    pub announce: Vec<u8>,
}

/// What the RDMA plane tells of a node's addresses.
#[derive(Debug)]
pub enum Rails {
    /// This node cannot name its own addresses.
    Unknown,
    /// The addresses do not encode: the node is not negotiated yet.
    Unnegotiated,
    /// The encoded addresses.
    Announce(Vec<u8>),
}

/// What a list of holders reads: name, whether local, addresses.
pub open spec fn holders_of(list: Seq<HolderEndpoints>) -> Seq<(Seq<char>, bool, Seq<u8>)> {
    list.map_values(|h: HolderEndpoints| (h.node@, h.local, h.announce@))
}

/// The holders of the names whose addresses are known, in order.
pub open spec fn known_holders(
    local: Seq<char>,
    listed: Seq<Seq<char>>,
    rails: Seq<Rails>,
) -> Seq<(Seq<char>, bool, Seq<u8>)>
    decreases listed.len(),
{
    if listed.len() == 0 {
        Seq::empty()
    } else {
        let before = known_holders(local, listed.drop_last(), rails);
        match rails[listed.len() - 1] {
            Rails::Announce(bytes) => before.push((listed.last(), listed.last() == local, bytes@)),
            _ => before,
        }
    }
}

/// Each name whose addresses are known is a holder, in its place, with its own addresses, and is
/// told to be this node exactly where it is; a name without them is left out.
pub proof fn each_known_name_is_a_holder(
    local: Seq<char>,
    listed: Seq<Seq<char>>,
    rails: Seq<Rails>,
    name: Seq<char>,
    of_name: Rails,
)
    requires
        listed.len() == rails.len(),
    ensures
        known_holders(local, Seq::empty(), Seq::empty()).len() == 0,
        of_name matches Rails::Announce(bytes) ==> known_holders(
            local,
            listed.push(name),
            rails.push(of_name),
        ) == known_holders(local, listed, rails).push((name, name == local, bytes@)),
        !(of_name is Announce) ==> known_holders(local, listed.push(name), rails.push(of_name))
            == known_holders(local, listed, rails),
{
    assert(listed.push(name).drop_last() =~= listed);
    lemma_known_holders(local, listed, rails, rails.push(of_name));
}

/// Only the addresses of the names in the list count.
proof fn lemma_known_holders(
    local: Seq<char>,
    listed: Seq<Seq<char>>,
    rails: Seq<Rails>,
    more: Seq<Rails>,
)
    requires
        listed.len() <= rails.len(),
        listed.len() <= more.len(),
        forall|i: int| 0 <= i < listed.len() ==> rails[i] == more[i],
    ensures
        known_holders(local, listed, rails) == known_holders(local, listed, more),
    decreases listed.len(),
{
    if listed.len() > 0 {
        lemma_known_holders(local, listed.drop_last(), rails, more);
        assert(rails[listed.len() - 1] == more[listed.len() - 1]);
    }
}

/// Whether this node was asked for its own addresses and cannot name them.
pub open spec fn local_unknown(
    local: Seq<char>,
    listed: Seq<Seq<char>>,
    rails: Seq<Rails>,
) -> bool {
    exists|i: int| 0 <= i < listed.len() && #[trigger] listed[i] == local && rails[i] is Unknown
}

/// The holders whose addresses an answer carries. A node that cannot name its own
/// addresses answers with none at all; any other node without addresses is left out.
pub fn endpoints_of(local_node: &str, listed: Vec<String>, rails: Vec<Rails>) -> (r: Vec<
    HolderEndpoints,
>)
    requires
        listed@.len() == rails@.len(),
    ensures
        holders_of(r@) == if local_unknown(local_node@, strings(listed@), rails@) {
            Seq::<(Seq<char>, bool, Seq<u8>)>::empty()
        } else {
            known_holders(local_node@, strings(listed@), rails@)
        },
{
    let ghost all = strings(listed@);
    let ghost told = rails@;
    let mut out: Vec<HolderEndpoints> = Vec::new();
    let mut i: usize = 0;
    assert(holders_of(out@) =~= Seq::empty());
    for answer in it: rails
        invariant
            it.seq() == told,
            i == it.index(),
            all == strings(listed@),
            listed@.len() == told.len(),
            holders_of(out@) == known_holders(local_node@, all.take(i as int), told),
            forall|j: int|
                0 <= j < i ==> !(#[trigger] all[j] == local_node@ && told[j] is Unknown),
    {
        let name = &listed[i];
        let is_local: bool = name.as_str().eq(local_node);
        proof {
            assert(all[i as int] == name@);
            assert(all.take(i + 1).drop_last() =~= all.take(i as int));
            assert(all.take(i + 1).last() == name@);
        }
        match answer {
            Rails::Unknown => {
                if is_local {
                    assert(local_unknown(local_node@, all, told));
                    let none: Vec<HolderEndpoints> = Vec::new();
                    assert(holders_of(none@) =~= Seq::empty());
                    return none;
                }
            },
            Rails::Unnegotiated => {},
            Rails::Announce(bytes) => {
                let ghost before = out@;
                let ghost carried = bytes@;
                out.push(
                    HolderEndpoints { node: name.clone(), local: is_local, announce: bytes },
                );
                assert(holders_of(out@) =~= holders_of(before).push((name@, is_local, carried)));
            },
        }
        i += 1;
    }
    assert(all.take(all.len() as int) =~= all);
    out
}

// ---- the document ----

/// This node cannot name its own addresses exactly where it is listed, at whatever place, and they
/// are not known; that those of another node are not says nothing.
pub proof fn when_the_own_addresses_are_unknown(
    local: Seq<char>,
    listed: Seq<Seq<char>>,
    rails: Seq<Rails>,
    i: int,
)
    ensures
        0 <= i < listed.len() && listed[i] == local && rails[i] is Unknown ==> local_unknown(
            local,
            listed,
            rails,
        ),
        (forall|k: int|
            0 <= k < listed.len() ==> (#[trigger] listed[k]) != local || !(rails[k] is Unknown))
            ==> !local_unknown(local, listed, rails),
{
}

/// Bytes as hexadecimal text: two small digits each.
pub open spec fn hex_text(bytes: Seq<u8>) -> Seq<char> {
    Seq::new(
        2 * bytes.len(),
        |i: int|
            if i % 2 == 0 {
                digit(bytes[i / 2] as int / 16)
            } else {
                digit(bytes[i / 2] as int % 16)
            },
    )
}

/// Bytes as hexadecimal text: two small digits each.
pub fn hex(bytes: &[u8]) -> (r: String)
    ensures
        r@ == hex_text(bytes@),
{
    let mut out = String::new();
    let mut i: usize = 0;
    assert(hex_text(bytes@.take(0)) =~= Seq::empty());
    while i < bytes.len()
        invariant
            i <= bytes@.len(),
            out@ == hex_text(bytes@.take(i as int)),
        decreases bytes@.len() - i,
    {
        let b: u8 = bytes[i];
        out.push(digit_char(b / 16));
        out.push(digit_char(b % 16));
        i += 1;
        assert(out@ =~= hex_text(bytes@.take(i as int))) by {
            let now = bytes@.take(i as int);
            let before = bytes@.take(i - 1);
            assert forall|k: int| 0 <= k < 2 * before.len() implies hex_text(now)[k] == hex_text(
                before,
            )[k] by {
                assert(now[k / 2] == before[k / 2]);
            }
            assert((2 * (i - 1)) / 2 == i - 1);
            assert((2 * (i - 1) + 1) / 2 == i - 1);
        }
    }
    assert(bytes@.take(i as int) =~= bytes@);
    out
}

/// What a hexadecimal digit stands for.
pub open spec fn digit_value(c: char) -> int {
    let u = c as u32;
    if u <= 57 {
        u - 48
    } else {
        u - 97 + 10
    }
}

/// The bytes that a hexadecimal text reads.
pub open spec fn hex_bytes(text: Seq<char>) -> Seq<u8> {
    Seq::new(
        text.len() / 2,
        |i: int| (16 * digit_value(text[2 * i]) + digit_value(text[2 * i + 1])) as u8,
    )
}

/// Hexadecimal text reads back as the bytes that it was made of.
pub proof fn hex_reads_back(bytes: Seq<u8>)
    ensures
        hex_text(bytes).len() == 2 * bytes.len(),
        hex_bytes(hex_text(bytes)) == bytes,
{
    let text = hex_text(bytes);
    assert forall|i: int| 0 <= i < bytes.len() implies hex_bytes(text)[i] == bytes[i] by {
        assert((2 * i) / 2 == i && (2 * i) % 2 == 0);
        assert((2 * i + 1) / 2 == i && (2 * i + 1) % 2 == 1);
        let b = bytes[i] as int;
        assert(text[2 * i] == digit(b / 16));
        assert(text[2 * i + 1] == digit(b % 16));
        assert(digit_value(digit(b / 16)) == b / 16);
        assert(digit_value(digit(b % 16)) == b % 16);
    }
    assert(hex_bytes(text) =~= bytes);
}

/// A character as it stands in a JSON string: quotes, backslashes and everything below a
/// blank are escaped.
pub open spec fn escaped_char(c: char) -> Seq<char> {
    if c == '"' {
        seq!['\\', '"']
    } else if c == '\\' {
        seq!['\\', '\\']
    } else if c == '\n' {
        seq!['\\', 'n']
    } else if c == '\r' {
        seq!['\\', 'r']
    } else if c == '\t' {
        seq!['\\', 't']
    } else if (c as u32) < 0x20 {
        seq!['\\', 'u', '0', '0', digit((c as u32) as int / 16), digit((c as u32) as int % 16)]
    } else {
        seq![c]
    }
}

/// A text as it stands in a JSON string.
pub open spec fn escaped(s: Seq<char>) -> Seq<char>
    decreases s.len(),
{
    if s.len() == 0 {
        Seq::empty()
    } else {
        escaped(s.drop_last()) + escaped_char(s.last())
    }
}

/// A text as it stands in a JSON string.
pub fn escape(s: &str) -> (r: String)
    ensures
        r@ == escaped(s@),
{
    let chars = chars_of(s);
    let mut out = String::new();
    let mut i: usize = 0;
    assert(escaped(s@.take(0)) =~= Seq::empty());
    while i < chars.len()
        invariant
            chars@ == s@,
            i <= s@.len(),
            out@ == escaped(s@.take(i as int)),
        decreases s@.len() - i,
    {
        let c: char = chars[i];
        let ghost before = out@;
        proof {
            assert(s@.take(i + 1).drop_last() =~= s@.take(i as int));
            assert(s@.take(i + 1).last() == c);
        }
        if c == '"' {
            out.push('\\');
            out.push('"');
        } else if c == '\\' {
            out.push('\\');
            out.push('\\');
        } else if c == '\n' {
            out.push('\\');
            out.push('n');
        } else if c == '\r' {
            out.push('\\');
            out.push('r');
        } else if c == '\t' {
            out.push('\\');
            out.push('t');
        } else if (c as u32) < 0x20 {
            let u: u8 = (c as u32) as u8;
            out.push('\\');
            out.push('u');
            out.push('0');
            out.push('0');
            out.push(digit_char(u / 16));
            out.push(digit_char(u % 16));
        } else {
            out.push(c);
        }
        assert(out@ =~= before + escaped_char(c));
        i += 1;
    }
    assert(s@.take(i as int) =~= s@);
    out
}

/// An escaped text holds no control character.
pub proof fn escaped_text_holds_no_control_character(s: Seq<char>)
    ensures
        forall|i: int| 0 <= i < escaped(s).len() ==> (#[trigger] escaped(s)[i]) as u32 >= 0x20,
    decreases s.len(),
{
    if s.len() > 0 {
        let front = escaped(s.drop_last());
        let last = escaped_char(s.last());
        escaped_text_holds_no_control_character(s.drop_last());
        assert forall|i: int| 0 <= i < escaped(s).len() implies (#[trigger] escaped(s)[i]) as u32
            >= 0x20 by {
            if i < front.len() {
                assert(escaped(s)[i] == front[i]);
            } else {
                assert(escaped(s)[i] == last[i - front.len()]);
            }
        }
    }
}

/// What the inside of a JSON string reads: a character stands for itself, a backslash
/// and what follows it for one character.
pub open spec fn unescaped(t: Seq<char>) -> Seq<char>
    decreases t.len(),
{
    if t.len() == 0 {
        Seq::empty()
    } else if t[0] != '\\' || t.len() == 1 {
        seq![t[0]] + unescaped(t.skip(1))
    } else if t[1] == 'n' {
        seq!['\n'] + unescaped(t.skip(2))
    } else if t[1] == 'r' {
        seq!['\r'] + unescaped(t.skip(2))
    } else if t[1] == 't' {
        seq!['\t'] + unescaped(t.skip(2))
    } else if t[1] == 'u' && t.len() >= 6 {
        seq![(16 * digit_value(t[4]) + digit_value(t[5])) as char] + unescaped(t.skip(6))
    } else {
        seq![t[1]] + unescaped(t.skip(2))
    }
}

/// An escaped text starts with its first character, escaped.
proof fn lemma_escaped_front(s: Seq<char>)
    requires
        s.len() > 0,
    ensures
        escaped(s) == escaped_char(s[0]) + escaped(s.skip(1)),
    decreases s.len(),
{
    if s.len() == 1 {
        assert(escaped(s.drop_last()) =~= Seq::empty());
        assert(escaped(s.skip(1)) =~= Seq::empty());
        assert(escaped(s) =~= escaped_char(s[0]) + escaped(s.skip(1)));
    } else {
        let front = s.drop_last();
        lemma_escaped_front(front);
        assert(s.skip(1).drop_last() =~= front.skip(1));
        assert(escaped(s) =~= escaped_char(s[0]) + escaped(s.skip(1)));
    }
}

/// A character is the one of its code.
proof fn lemma_char_of_code(c: char)
    ensures
        ((c as u32) as int) as char == c,
{
}

/// A text that was escaped into a JSON string reads back as itself.
pub proof fn escaped_text_reads_back(s: Seq<char>)
    ensures
        unescaped(escaped(s)) == s,
    decreases s.len(),
{
    if s.len() > 0 {
        lemma_escaped_front(s);
        escaped_text_reads_back(s.skip(1));
        let c = s[0];
        let head = escaped_char(c);
        let rest = escaped(s.skip(1));
        let t = escaped(s);
        assert(t == head + rest);
        assert(t.skip(head.len() as int) =~= rest);
        assert forall|i: int| 0 <= i < head.len() implies t[i] == head[i] by {}
        assert(s =~= seq![c] + s.skip(1));
        if (c as u32) < 0x20 && c != '\n' && c != '\r' && c != '\t' {
            let u = (c as u32) as int;
            assert(digit_value(digit(u / 16)) == u / 16);
            assert(digit_value(digit(u % 16)) == u % 16);
            assert(16 * (u / 16) + u % 16 == u);
            assert(t[4] == digit(u / 16) && t[5] == digit(u % 16));
            lemma_char_of_code(c);
            assert(t[0] == '\\' && t[1] == 'u');
        }
        assert(unescaped(t) =~= seq![c] + unescaped(rest));
    }
}

/// The JSON text of one holder.
pub open spec fn holder_text(holder: (Seq<char>, bool, Seq<u8>)) -> Seq<char> {
    "{\"node\":\""@ + escaped(holder.0) + "\",\"local\":"@ + (if holder.1 {
        "true"@
    } else {
        "false"@
    }) + ",\"announce\":\""@ + hex_text(holder.2) + "\"}"@
}

/// The JSON texts of several holders, divided by commas.
pub open spec fn holders_text(holders: Seq<(Seq<char>, bool, Seq<u8>)>) -> Seq<char>
    decreases holders.len(),
{
    if holders.len() == 0 {
        Seq::empty()
    } else if holders.len() == 1 {
        holder_text(holders[0])
    } else {
        holders_text(holders.drop_last()) + ","@ + holder_text(holders.last())
    }
}

/// The document that an answer carries. Without holders there is no plane to prime.
pub open spec fn document_text(holders: Seq<(Seq<char>, bool, Seq<u8>)>) -> Seq<char> {
    "{\"version\":"@ + decimal(ENDPOINTS_VERSION as nat) + ",\"plane\":\""@ + (if holders.len()
        == 0 {
        "none"@
    } else {
        "efa"@
    }) + "\",\"nodes\":["@ + holders_text(holders) + "]}"@
}

/// The document that an answer carries.
pub fn document(holders: &[HolderEndpoints]) -> (r: String)
    ensures
        r@ == document_text(holders_of(holders@)),
{
    let ghost all = holders_of(holders@);
    let mut json = String::new();
    push_text(&mut json, "{\"version\":");
    push_decimal(&mut json, ENDPOINTS_VERSION as u64);
    push_text(&mut json, ",\"plane\":\"");
    if holders.len() == 0 {
        push_text(&mut json, "none");
    } else {
        push_text(&mut json, "efa");
    }
    push_text(&mut json, "\",\"nodes\":[");
    let ghost head = json@;
    let mut i: usize = 0;
    assert(head + holders_text(all.take(0)) =~= head);
    while i < holders.len()
        invariant
            i <= holders@.len(),
            all == holders_of(holders@),
            json@ == head + holders_text(all.take(i as int)),
        decreases holders@.len() - i,
    {
        let ghost before = json@;
        proof {
            assert(all.take(i + 1).drop_last() =~= all.take(i as int));
            assert(all.take(i + 1).last() == all[i as int]);
        }
        if i > 0 {
            push_text(&mut json, ",");
        }
        let holder = &holders[i];
        push_text(&mut json, "{\"node\":\"");
        push_text(&mut json, escape(holder.node.as_str()).as_str());
        push_text(&mut json, "\",\"local\":");
        if holder.local {
            push_text(&mut json, "true");
        } else {
            push_text(&mut json, "false");
        }
        push_text(&mut json, ",\"announce\":\"");
        push_text(&mut json, hex(holder.announce.as_slice()).as_str());
        push_text(&mut json, "\"}");
        proof {
            let one = holder_text(all[i as int]);
            if i > 0 {
                assert(json@ =~= before + ","@ + one);
                assert(json@ =~= head + holders_text(all.take(i + 1)));
            } else {
                assert(before =~= head);
                assert(json@ =~= head + one);
                assert(json@ =~= head + holders_text(all.take(i + 1)));
            }
        }
        i += 1;
    }
    assert(all.take(i as int) =~= all);
    push_text(&mut json, "]}");
    assert(json@ =~= document_text(all));
    json
}

// ---- reading the document ----

/// What follows `start` in a text that starts so.
pub open spec fn behind(t: Seq<char>, start: Seq<char>) -> Option<Seq<char>> {
    if start.is_prefix_of(t) {
        Some(t.skip(start.len() as int))
    } else {
        None
    }
}

/// How many characters of a JSON string stand for its next one.
pub open spec fn unit_len(t: Seq<char>) -> nat {
    if t[0] != '\\' {
        1
    } else if t.len() > 1 && t[1] == 'u' {
        6
    } else {
        2
    }
}

/// What a JSON string reads up to its closing quote, and the text behind that.
pub open spec fn read_string(t: Seq<char>) -> Option<(Seq<char>, Seq<char>)>
    decreases t.len(),
{
    if t.len() == 0 {
        None
    } else if t[0] == '"' {
        Some((Seq::empty(), t.skip(1)))
    } else if unit_len(t) > t.len() {
        None
    } else {
        match read_string(t.skip(unit_len(t) as int)) {
            Some((rest, behind)) => Some(
                (unescaped(t.take(unit_len(t) as int)) + rest, behind),
            ),
            None => None,
        }
    }
}

/// One node of a JSON list of nodes, and the text behind it.
#[verifier::opaque]
pub open spec fn read_holder(t: Seq<char>) -> Option<
    ((Seq<char>, bool, Seq<u8>), Seq<char>),
> {
    match behind(t, "{\"node\":\""@) {
        None => None,
        Some(t) => match read_string(t) {
            None => None,
            Some((node, t)) => match behind(t, ",\"local\":"@) {
                None => None,
                Some(t) => {
                    let yes = behind(t, "true,\"announce\":\""@);
                    let no = behind(t, "false,\"announce\":\""@);
                    match if yes is Some {
                        yes
                    } else {
                        no
                    } {
                        None => None,
                        Some(t) => match read_string(t) {
                            None => None,
                            Some((hex, t)) => match behind(t, "}"@) {
                                None => None,
                                Some(t) => Some(((node, yes is Some, hex_bytes(hex)), t)),
                            },
                        },
                    }
                },
            },
        },
    }
}

/// The nodes of a JSON list behind its opening bracket: one, and then each behind one comma,
/// up to the closing bracket. What follows that must be the end of the document. `most` is how
/// many are read.
pub open spec fn read_holders(t: Seq<char>, most: nat) -> Option<Seq<(Seq<char>, bool, Seq<u8>)>>
    decreases most,
{
    if most == 0 {
        None
    } else {
        match read_holder(t) {
            None => None,
            Some((holder, rest)) => if rest == "]}"@ {
                Some(seq![holder])
            } else {
                match behind(rest, ","@) {
                    None => None,
                    Some(rest) => match read_holders(rest, (most - 1) as nat) {
                        None => None,
                        Some(more) => Some(seq![holder] + more),
                    },
                }
            },
        }
    }
}

/// What a document says: its version, the plane, and the nodes.
pub open spec fn read_document(t: Seq<char>) -> Option<
    (u64, Seq<char>, Seq<(Seq<char>, bool, Seq<u8>)>),
> {
    match behind(t, "{\"version\":"@) {
        None => None,
        Some(t) => match split_once(t, ',') {
            None => None,
            Some((version, t)) => match (number(version), behind(t, "\"plane\":\""@)) {
                (Some(version), Some(t)) => match read_string(t) {
                    None => None,
                    Some((plane, t)) => match behind(t, ",\"nodes\":["@) {
                        None => None,
                        Some(t) => if t == "]}"@ {
                            Some((version, plane, Seq::empty()))
                        } else {
                            match read_holders(t, t.len()) {
                                None => None,
                                Some(nodes) => Some((version, plane, nodes)),
                            }
                        },
                    },
                },
                _ => None,
            },
        },
    }
}

/// What follows a start is what was put behind it.
proof fn lemma_behind(start: Seq<char>, rest: Seq<char>)
    ensures
        behind(start + rest, start) == Some(rest),
{
    assert(start.is_prefix_of(start + rest));
    assert((start + rest).skip(start.len() as int) =~= rest);
}

/// An escaped character is one unit of a JSON string, and reads as itself.
proof fn lemma_unit(c: char, rest: Seq<char>)
    ensures
        escaped_char(c).len() > 0,
        escaped_char(c)[0] != '"',
        unit_len(escaped_char(c) + rest) == escaped_char(c).len(),
        unescaped((escaped_char(c) + rest).take(escaped_char(c).len() as int)) == seq![c],
{
    let one = escaped_char(c);
    assert((one + rest).take(one.len() as int) =~= one);
    escaped_text_reads_back(seq![c]);
    let text = seq![c];
    assert(text.drop_last() =~= Seq::empty());
    assert(escaped(text.drop_last()) =~= Seq::empty());
    assert(text.last() == c);
    assert(escaped(text) =~= one);
}

/// A text that was escaped into a JSON string is read up to the quote behind it.
proof fn lemma_string_reads_back(s: Seq<char>, rest: Seq<char>)
    ensures
        read_string(escaped(s) + seq!['"'] + rest) == Some((s, rest)),
    decreases s.len(),
{
    let t = escaped(s) + seq!['"'] + rest;
    if s.len() == 0 {
        assert(t =~= seq!['"'] + rest);
        assert(t.skip(1) =~= rest);
        assert(s =~= Seq::empty());
    } else {
        lemma_escaped_front(s);
        let one = escaped_char(s[0]);
        let tail = escaped(s.skip(1)) + seq!['"'] + rest;
        assert(t =~= one + tail);
        lemma_unit(s[0], tail);
        lemma_string_reads_back(s.skip(1), rest);
        assert(t.skip(one.len() as int) =~= tail);
        assert(t[0] == one[0]);
        assert(s =~= seq![s[0]] + s.skip(1));
    }
}

/// Hexadecimal text needs no escape.
proof fn lemma_hex_is_plain(bytes: Seq<u8>, n: nat)
    requires
        n <= hex_text(bytes).len(),
    ensures
        escaped(hex_text(bytes).take(n as int)) == hex_text(bytes).take(n as int),
    decreases n,
{
    let text = hex_text(bytes);
    if n > 0 {
        lemma_hex_is_plain(bytes, (n - 1) as nat);
        let now = text.take(n as int);
        assert(now.drop_last() =~= text.take(n - 1));
        let i = n - 1;
        let b = bytes[i / 2] as int;
        assert(now.last() == text[i]);
        assert(text[i] == digit(b / 16) || text[i] == digit(b % 16));
        assert(escaped_char(now.last()) =~= seq![now.last()]);
        assert(now =~= text.take(n - 1) + seq![now.last()]);
    } else {
        assert(text.take(0) =~= Seq::empty());
    }
}

/// The two values of `local` are told apart.
proof fn lemma_true_or_false(rest: Seq<char>)
    ensures
        behind("false,\"announce\":\""@ + rest, "true,\"announce\":\""@) is None,
{
    reveal_strlit("true,\"announce\":\"");
    reveal_strlit("false,\"announce\":\"");
    let t = "false,\"announce\":\""@ + rest;
    assert(t[0] == 'f');
    assert("true,\"announce\":\""@[0] == 't');
}

/// What follows the opening of a node's text.
spec fn holder_tail(holder: (Seq<char>, bool, Seq<u8>), rest: Seq<char>) -> Seq<char> {
    escaped(holder.0) + seq!['"'] + (",\"local\":"@ + ((if holder.1 {
        "true,\"announce\":\""@
    } else {
        "false,\"announce\":\""@
    }) + (escaped(hex_text(holder.2)) + seq!['"'] + ("}"@ + rest))))
}

/// How the text of a holder is laid out.
proof fn lemma_holder_layout(holder: (Seq<char>, bool, Seq<u8>), rest: Seq<char>)
    ensures
        holder_text(holder) + rest == "{\"node\":\""@ + holder_tail(holder, rest),
{
    reveal_strlit("\",\"local\":");
    reveal_strlit(",\"local\":");
    reveal_strlit("true");
    reveal_strlit("false");
    reveal_strlit(",\"announce\":\"");
    reveal_strlit("true,\"announce\":\"");
    reveal_strlit("false,\"announce\":\"");
    reveal_strlit("\"}");
    reveal_strlit("}");
    let hex = hex_text(holder.2);
    lemma_hex_is_plain(holder.2, hex.len());
    assert(hex.take(hex.len() as int) =~= hex);
    assert("\",\"local\":"@ =~= seq!['"'] + ",\"local\":"@);
    assert("\"}"@ =~= seq!['"'] + "}"@);
    assert("true"@ + ",\"announce\":\""@ =~= "true,\"announce\":\""@);
    assert("false"@ + ",\"announce\":\""@ =~= "false,\"announce\":\""@);
    let word = if holder.1 {
        "true"@
    } else {
        "false"@
    };
    lemma_holder_parts(
        "{\"node\":\""@,
        escaped(holder.0),
        ",\"local\":"@,
        word,
        ",\"announce\":\""@,
        hex,
        "}"@,
        rest,
    );
}

/// Texts put end to end may be put together in any order.
proof fn lemma_holder_parts(
    a: Seq<char>,
    b: Seq<char>,
    c: Seq<char>,
    d: Seq<char>,
    e: Seq<char>,
    f: Seq<char>,
    g: Seq<char>,
    rest: Seq<char>,
)
    ensures
        a + b + (seq!['"'] + c) + d + e + f + (seq!['"'] + g) + rest == a + (b + seq!['"'] + (c + ((d
            + e) + (f + seq!['"'] + (g + rest))))),
{
    assert(a + b + (seq!['"'] + c) + d + e + f + (seq!['"'] + g) + rest =~= a + (b + seq!['"'] + (c
        + ((d + e) + (f + seq!['"'] + (g + rest))))));
}

/// The text of a holder is read as the holder.
proof fn lemma_holder_reads_back(holder: (Seq<char>, bool, Seq<u8>), rest: Seq<char>)
    ensures
        read_holder(holder_text(holder) + rest) == Some((holder, rest)),
{
    reveal(read_holder);
    let (node, local, announce) = holder;
    let hex = hex_text(announce);
    hex_reads_back(announce);
    let word = if local {
        "true,\"announce\":\""@
    } else {
        "false,\"announce\":\""@
    };
    let t5 = "}"@ + rest;
    let t4 = escaped(hex) + seq!['"'] + t5;
    let t3 = word + t4;
    let t2 = ",\"local\":"@ + t3;
    let t1 = escaped(node) + seq!['"'] + t2;
    lemma_holder_layout(holder, rest);
    assert(holder_tail(holder, rest) == t1);
    lemma_behind("{\"node\":\""@, t1);
    lemma_string_reads_back(node, t2);
    lemma_behind(",\"local\":"@, t3);
    lemma_behind(word, t4);
    lemma_true_or_false(t4);
    lemma_string_reads_back(hex, t5);
    lemma_behind("}"@, rest);
    assert(holder == (node, local, announce));
}

/// A list of holders starts with its first, and the others stand behind one comma.
proof fn lemma_holders_front(holders: Seq<(Seq<char>, bool, Seq<u8>)>)
    requires
        holders.len() > 0,
    ensures
        holders_text(holders) == if holders.len() == 1 {
            holder_text(holders[0])
        } else {
            holder_text(holders[0]) + ","@ + holders_text(holders.skip(1))
        },
    decreases holders.len(),
{
    if holders.len() > 1 {
        let front = holders.drop_last();
        let last = holders.last();
        lemma_holders_front(front);
        let rest = holders.skip(1);
        assert(rest.last() == last);
        if holders.len() == 2 {
            assert(rest =~= seq![last]);
            assert(front[0] == holders[0]);
        } else {
            assert(rest.drop_last() =~= front.skip(1));
            assert(holders_text(holders) =~= holder_text(holders[0]) + ","@ + holders_text(rest));
        }
    }
}

/// A comma does not end a list.
proof fn lemma_comma_goes_on(tail: Seq<char>)
    ensures
        ","@ + tail != "]}"@,
{
    reveal_strlit("]}");
    reveal_strlit(",");
    assert((","@ + tail)[0] == ',' && "]}"@[0] == ']');
}

/// A list of holders is read as those holders.
proof fn lemma_holders_read_back(holders: Seq<(Seq<char>, bool, Seq<u8>)>, most: nat)
    requires
        0 < holders.len() <= most,
    ensures
        read_holders(holders_text(holders) + "]}"@, most) == Some(holders),
    decreases holders.len(),
{
    lemma_holders_front(holders);
    let t = holders_text(holders) + "]}"@;
    let one = holder_text(holders[0]);
    if holders.len() == 1 {
        lemma_holder_reads_back(holders[0], "]}"@);
        assert(holders =~= seq![holders[0]]);
    } else {
        let more = holders.skip(1);
        let tail = holders_text(more) + "]}"@;
        let rest = ","@ + tail;
        assert(one + ","@ + holders_text(more) + "]}"@ =~= one + rest);
        lemma_holder_reads_back(holders[0], rest);
        lemma_comma_goes_on(tail);
        lemma_behind(","@, tail);
        lemma_holders_read_back(more, (most - 1) as nat);
        assert(holders =~= seq![holders[0]] + more);
    }
}

/// A list of holders has more characters than holders.
proof fn lemma_holders_len(holders: Seq<(Seq<char>, bool, Seq<u8>)>)
    ensures
        holders_text(holders).len() >= holders.len(),
    decreases holders.len(),
{
    reveal_strlit("{\"node\":\"");
    reveal_strlit(",");
    if holders.len() > 0 {
        lemma_holders_len(holders.drop_last());
        lemma_holders_front(holders);
    }
}

/// A text without quotes, backslashes and control characters needs no escape.
proof fn lemma_plain(s: Seq<char>)
    requires
        forall|i: int|
            0 <= i < s.len() ==> (#[trigger] s[i]) as u32 >= 0x20 && s[i] != '"' && s[i] != '\\',
    ensures
        escaped(s) == s,
    decreases s.len(),
{
    if s.len() > 0 {
        let front = s.drop_last();
        assert forall|i: int| 0 <= i < front.len() implies (#[trigger] front[i]) as u32 >= 0x20
            && front[i] != '"' && front[i] != '\\' by {
            assert(front[i] == s[i]);
        }
        lemma_plain(front);
        assert(s[s.len() - 1] == s.last());
        assert(escaped(s) =~= s);
    } else {
        assert(escaped(s) =~= s);
    }
}

/// The document reads back: a reader of its JSON gets the version of the format, the plane,
/// which there is just where any node is named, and exactly the holders that it was made of, in
/// their order, each with its name, whether it is the answering node, and its addresses.
pub proof fn the_document_reads_back(holders: Seq<(Seq<char>, bool, Seq<u8>)>)
    ensures
        read_document(document_text(holders)) == Some(
            (
                ENDPOINTS_VERSION as u64,
                if holders.len() == 0 {
                    "none"@
                } else {
                    "efa"@
                },
                holders,
            ),
        ),
{
    reveal_strlit("{\"version\":");
    reveal_strlit(",\"plane\":\"");
    reveal_strlit("\"plane\":\"");
    reveal_strlit("\",\"nodes\":[");
    reveal_strlit(",\"nodes\":[");
    reveal_strlit("]}");
    reveal_strlit("none");
    reveal_strlit("efa");
    reveal_strlit("{\"node\":\"");
    let plane = if holders.len() == 0 {
        "none"@
    } else {
        "efa"@
    };
    let version = decimal(ENDPOINTS_VERSION as nat);
    lemma_plain(plane);
    let t4 = holders_text(holders) + "]}"@;
    let t3 = ",\"nodes\":["@ + t4;
    let t2 = escaped(plane) + seq!['"'] + t3;
    let t1 = "\"plane\":\""@ + t2;
    let t0 = version + seq![','] + t1;
    assert(document_text(holders) =~= "{\"version\":"@ + t0);
    lemma_behind("{\"version\":"@, t0);
    crate::text::decimal_holds_no(ENDPOINTS_VERSION as nat, ',');
    crate::text::number_of_decimal(ENDPOINTS_VERSION as u64);
    let at = version.len() as int;
    assert forall|j: int| 0 <= j < at implies t0[j] != ',' by {
        assert(t0[j] == version[j]);
    }
    crate::text::lemma_first_index(t0, ',', at);
    assert(t0.take(at) =~= version);
    assert(t0.skip(at + 1) =~= t1);
    lemma_behind("\"plane\":\""@, t2);
    lemma_string_reads_back(plane, t3);
    lemma_behind(",\"nodes\":["@, t4);
    if holders.len() == 0 {
        assert(t4 =~= "]}"@);
        assert(holders =~= Seq::empty());
    } else {
        lemma_holders_len(holders);
        lemma_holders_read_back(holders, t4.len());
        lemma_holders_front(holders);
        assert(holder_text(holders[0])[0] == '{');
        assert(t4[0] == '{');
        assert("]}"@[0] == ']');
    }
}

// ---- the answer ----

/// The response that carries a document: marked as one, with its length and type, and
/// with nothing told of the object, whose header was not looked at.
pub fn response(json: &str) -> (out: GetOutput)
    ensures
        out.content_length == (vstd::utf8::encode_utf8(json@).len() as usize) as i64,
        opt_text(out.content_type) == Some("application/json"@),
        out.accept_ranges is None,
        out.content_range is None,
        out.e_tag is None,
        out.last_modified is None,
        out.extra@.len() == 1,
        out.extra@[0].0@ == ENDPOINTS_HEADER@,
        out.extra@[0].1@ == decimal(ENDPOINTS_VERSION as nat),
{
    let mut version = String::new();
    push_decimal(&mut version, ENDPOINTS_VERSION as u64);
    assert(version@ =~= decimal(ENDPOINTS_VERSION as nat));
    let mut extra: Vec<(String, String)> = Vec::new();
    extra.push((ENDPOINTS_HEADER.to_owned(), version));
    let len: usize = json.len();
    GetOutput {
        accept_ranges: None,
        content_length: #[verifier::truncate] (len as i64),
        content_range: None,
        content_type: Some("application/json".to_owned()),
        e_tag: None,
        last_modified: None,
        extra,
    }
}

/// How an answer is counted: served where it names any holder.
pub fn outcome(holders: usize) -> (r: &'static str)
    ensures
        r@ == if holders == 0 {
            OUTCOME_NO_PLANE@
        } else {
            OUTCOME_SERVED@
        },
{
    if holders == 0 {
        OUTCOME_NO_PLANE
    } else {
        OUTCOME_SERVED
    }
}

/// What a question that cannot be read is answered.
pub fn malformed(why: &str) -> (f: Failure)
    ensures
        f.code is InvalidRequest,
        f.message@ == GET_ENDPOINTS_HEADER@ + ": "@ + why@,
{
    let mut message = String::new();
    push_text(&mut message, GET_ENDPOINTS_HEADER);
    push_text(&mut message, ": ");
    push_text(&mut message, why);
    assert(message@ =~= GET_ENDPOINTS_HEADER@ + ": "@ + why@);
    failure(ErrorCode::InvalidRequest, message.as_str())
}

/// The first step of an answer: the windows to look up in the ring, or why the question
/// cannot be answered.
pub fn windows_to_ask(raw: &str, chunk: &ChunkConfig, parallelism: usize) -> (r: Result<
    Range<u64>,
    Failure,
>)
    ensures
        match question(raw@) {
            Ok(ask) => r matches Ok(w) && (w.start as nat, w.end as nat) == windows_asked(
                ask,
                chunk.size(),
                if parallelism == 0 {
                    1
                } else {
                    parallelism as nat
                },
            ),
            Err(e) => r matches Err(f) && f.code is InvalidRequest && f.message@
                == GET_ENDPOINTS_HEADER@ + ": "@ + fault_text(e.0, debug_text(e.1)),
        },
{
    match EndpointsAsk::parse(raw) {
        Ok(ask) => Ok(endpoint_windows(ask, chunk, max_endpoint_nodes(parallelism))),
        Err(why) => Err(malformed(why.as_str())),
    }
}

/// An answer, ready to send.
#[derive(Debug)]
pub struct Answer {
    /// The fields of the response.
    pub output: GetOutput,
    /// Its body, the document.
    pub body: String,
    /// How it is counted.
    pub outcome: &'static str,
    /// How many nodes it names.
    pub nodes: usize,
}

/// The last step of an answer: the response for the holders whose addresses are known.
/// A node on its own, or one without the plane, answers with none.
pub fn answer(holders: &[HolderEndpoints]) -> (a: Answer)
    ensures
        a.body@ == document_text(holders_of(holders@)),
        a.output.content_length == (vstd::utf8::encode_utf8(a.body@).len() as usize) as i64,
        opt_text(a.output.content_type) == Some("application/json"@),
        a.output.extra@.len() == 1,
        a.output.extra@[0].0@ == ENDPOINTS_HEADER@,
        a.output.extra@[0].1@ == decimal(ENDPOINTS_VERSION as nat),
        a.output.accept_ranges is None && a.output.content_range is None && a.output.e_tag is None
            && a.output.last_modified is None,
        a.nodes == holders@.len(),
        a.outcome@ == if holders@.len() == 0 {
            OUTCOME_NO_PLANE@
        } else {
            OUTCOME_SERVED@
        },
{
    let body = document(holders);
    Answer {
        output: response(body.as_str()),
        body,
        outcome: outcome(holders.len()),
        nodes: holders.len(),
    }
}

} // verus!
