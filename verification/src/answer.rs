//! What a request is answered: a failure with its code, or the fields of a response.

use vstd::prelude::*;

use crate::text::{
    copy_opt, decimal, decimal_holds_no, lemma_first_index, lemma_last_index, number,
    number_of_decimal, opt_text, push_decimal, push_text, split_once,
};

verus! {

/// The S3 error codes that this node answers with.
#[derive(Clone, Copy, Debug, PartialEq, Eq, Structural)]
pub enum ErrorCode {
    /// The object does not exist.
    NoSuchKey,
    /// The range cannot be satisfied.
    InvalidRange,
    /// The request does not make sense.
    InvalidRequest,
    /// The part list of a multipart upload is not in order.
    InvalidPartOrder,
    /// The body does not match the checksum that came with it.
    BadDigest,
    /// This node, or the backend behind it, failed.
    InternalError,
}

/// A request that was not served.
#[derive(Debug)]
pub struct Failure {
    /// The error code.
    pub code: ErrorCode,
    /// The message that goes with it.
    pub message: String,
}

/// A failure with that code and message.
pub fn failure(code: ErrorCode, message: &str) -> (f: Failure)
    ensures
        f.code == code,
        f.message@ == message@,
{
    Failure { code, message: message.to_owned() }
}

/// What is known of an object: its length and the metadata of a response.
#[derive(Debug)]
pub struct ObjectHeader {
    /// The object's length in bytes.
    pub object_len: u64,
    /// Its entity tag, without quotes.
    pub e_tag: Option<String>,
    /// Its content type.
    pub content_type: Option<String>,
    /// When it was last modified, in seconds since the epoch.
    pub last_modified_epoch_secs: Option<i64>,
}

/// The fields of a GET response. A field that is `None` is left out.
#[derive(Debug)]
pub struct GetOutput {
    /// The range unit that is accepted.
    pub accept_ranges: Option<String>,
    /// The length of the body.
    pub content_length: i64,
    /// The part of the object that was served.
    pub content_range: Option<String>,
    /// The content type.
    pub content_type: Option<String>,
    /// The entity tag, a strong one.
    pub e_tag: Option<String>,
    /// When the object was last modified, in seconds since the epoch.
    pub last_modified: Option<u64>,
    /// Further header fields, by name.
    pub extra: Vec<(String, String)>,
}

/// The range text of a partial response: the first and last byte served, and the
/// object's length.
pub open spec fn content_range_text(start: nat, end: nat, object_len: nat) -> Seq<char> {
    "bytes "@ + decimal(start) + "-"@ + decimal((end - 1) as nat) + "/"@ + decimal(object_len)
}

/// The range text of a partial response.
pub fn content_range(start: u64, end: u64, object_len: u64) -> (r: String)
    requires
        end > 0,
    ensures
        r@ == content_range_text(start as nat, end as nat, object_len as nat),
{
    let mut out = String::new();
    push_text(&mut out, "bytes ");
    push_decimal(&mut out, start);
    push_text(&mut out, "-");
    push_decimal(&mut out, end - 1);
    push_text(&mut out, "/");
    push_decimal(&mut out, object_len);
    assert(out@ =~= content_range_text(start as nat, end as nat, object_len as nat));
    out
}

/// The range text of a partial response reads back: behind the unit, the first byte that was
/// served, the last one behind the dash, and the object's length behind the slash.
pub proof fn a_content_range_reads_back(start: u64, end: u64, object_len: u64)
    requires
        end > 0,
    ensures
        ({
            let text = content_range_text(start as nat, end as nat, object_len as nat);
            &&& "bytes "@.is_prefix_of(text)
            &&& split_once(text.skip(6), '-') matches Some((first, rest)) && number(first) == Some(
                start,
            ) && (split_once(rest, '/') matches Some((last, total)) && number(last) == Some(
                (end - 1) as u64,
            ) && number(total) == Some(object_len))
        }),
        crate::chunk::range_total(
            Some(content_range_text(start as nat, end as nat, object_len as nat)),
        ) == Some(object_len),
{
    reveal_strlit("bytes ");
    reveal_strlit("-");
    reveal_strlit("/");
    let a = decimal(start as nat);
    let b = decimal((end - 1) as nat);
    let c = decimal(object_len as nat);
    let text = content_range_text(start as nat, end as nat, object_len as nat);
    let tail = b + "/"@ + c;
    let rest = a + "-"@ + tail;
    assert(text =~= "bytes "@ + rest);
    assert(text.skip(6) =~= rest);
    decimal_holds_no(start as nat, '-');
    decimal_holds_no((end - 1) as nat, '/');
    decimal_holds_no(object_len as nat, '/');
    number_of_decimal(start);
    number_of_decimal((end - 1) as u64);
    number_of_decimal(object_len);
    let at = a.len() as int;
    assert forall|j: int| 0 <= j < at implies rest[j] != '-' by {
        assert(rest[j] == a[j]);
    }
    assert(rest[at] == '-');
    lemma_first_index(rest, '-', at);
    assert(rest.take(at) =~= a);
    assert(rest.skip(at + 1) =~= tail);
    let to = b.len() as int;
    assert forall|j: int| 0 <= j < to implies tail[j] != '/' by {
        assert(tail[j] == b[j]);
    }
    assert(tail[to] == '/');
    lemma_first_index(tail, '/', to);
    assert(tail.take(to) =~= b);
    assert(tail.skip(to + 1) =~= c);
    let slash = 6 + at + 1 + to;
    assert(text[slash] == '/');
    assert forall|j: int| slash < j < text.len() implies text[j] != '/' by {
        assert(text[j] == c[j - slash - 1]);
    }
    lemma_last_index(text, '/', slash);
    assert(text.skip(slash + 1) =~= c);
}

/// A modification from the epoch on is told as it is, and an earlier one as the epoch.
pub proof fn a_stamp_is_told_as_it_is(secs: i64)
    ensures
        secs >= 0 ==> stamp(Some(secs)) == Some(secs as u64),
        secs < 0 ==> stamp(Some(secs)) == Some(0u64),
        stamp(None) is None,
{
}

/// The time of a last modification as a response carries it: none before the epoch.
pub open spec fn stamp(secs: Option<i64>) -> Option<u64> {
    match secs {
        Some(s) => Some(
            if s < 0 {
                0u64
            } else {
                s as u64
            },
        ),
        None => None,
    }
}

/// What every response about an object carries: its metadata, and its range where the
/// request named one.
pub open spec fn describes(
    out: GetOutput,
    header: ObjectHeader,
    start: nat,
    end: nat,
    ranged: bool,
) -> bool {
    &&& opt_text(out.accept_ranges) == Some("bytes"@)
    &&& opt_text(out.content_type) == opt_text(header.content_type)
    &&& opt_text(out.e_tag) == opt_text(header.e_tag)
    &&& out.last_modified == stamp(header.last_modified_epoch_secs)
    &&& opt_text(out.content_range) == if ranged {
        Some(content_range_text(start, end, header.object_len as nat))
    } else {
        None
    }
}

/// A response tells the object's own metadata: its type, its tag and its time; that ranges are
/// taken; and, where the request named a range and only there, which bytes of how many it has.
pub proof fn a_response_tells_its_object(
    out: GetOutput,
    header: ObjectHeader,
    start: nat,
    end: nat,
    ranged: bool,
)
    requires
        describes(out, header, start, end, ranged),
    ensures
        opt_text(out.e_tag) == opt_text(header.e_tag),
        opt_text(out.content_type) == opt_text(header.content_type),
        header.last_modified_epoch_secs is Some <==> out.last_modified is Some,
        header.last_modified_epoch_secs matches Some(s) ==> (s >= 0 ==> out.last_modified == Some(
            s as u64,
        )),
        opt_text(out.accept_ranges) == Some("bytes"@),
        out.content_range is Some <==> ranged,
        ranged ==> opt_text(out.content_range) == Some(
            content_range_text(start, end, header.object_len as nat),
        ),
{
}

/// The response about a served range of an object, with that body length and no
/// further fields.
pub fn describe(
    header: &ObjectHeader,
    start: u64,
    end: u64,
    ranged: bool,
    content_length: i64,
) -> (out: GetOutput)
    requires
        ranged ==> end > 0,
    ensures
        describes(out, *header, start as nat, end as nat, ranged),
        out.content_length == content_length,
        out.extra@.len() == 0,
{
    let content_range: Option<String> = if ranged {
        Some(content_range(start, end, header.object_len))
    } else {
        None
    };
    let last_modified: Option<u64> = match header.last_modified_epoch_secs {
        Some(s) => Some(
            if s < 0 {
                0
            } else {
                s as u64
            },
        ),
        None => None,
    };
    GetOutput {
        accept_ranges: Some("bytes".to_owned()),
        content_length,
        content_range,
        content_type: copy_opt(&header.content_type),
        e_tag: copy_opt(&header.e_tag),
        last_modified,
        extra: Vec::new(),
    }
}

} // verus!
