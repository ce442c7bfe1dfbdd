//! What crosses the boundary: bytes coming in, bytes going out, and the
//! outcome of a call.
//!
//! A pointer that may be null arrives here as an `Option`: `None` for
//! null, what it points at otherwise. An out-param arrives as whether
//! there is one to write to, and what is to be written is handed back.

use regolith::DbSlice;
use vstd::prelude::*;
use vstd::string::*;
use vstd::utf8::*;

use crate::engine;
use crate::failure;
use crate::failure::{Failure, OK, PANIC};
use crate::seqs;

verus! {

// ---------------------------------------------------------------------
// The outcome of a call.
// ---------------------------------------------------------------------

/// What a caught panic carried.
pub enum PanicPayload {
    /// The literal of a `panic!` without arguments.
    Literal(&'static str),
    /// The text of a formatted `panic!`.
    Formatted(String),
    /// Anything else, which has no text to give.
    Opaque,
}

impl View for PanicPayload {
    type V = Seq<char>;

    open spec fn view(&self) -> Seq<char> {
        match self {
            PanicPayload::Literal(text) => text@,
            PanicPayload::Formatted(text) => text@,
            PanicPayload::Opaque => "unknown panic"@,
        }
    }
}

/// The text of a caught panic payload, for the [`PANIC`] detail.
pub fn panic_detail(payload: PanicPayload) -> (detail: String)
    ensures
        detail@ == payload@,
{
    match payload {
        PanicPayload::Literal(text) => text.to_owned(),
        PanicPayload::Formatted(text) => text,
        PanicPayload::Opaque => "unknown panic".to_owned(),
    }
}

/// `text` without its nul characters.
pub open spec fn without_nuls(text: Seq<char>) -> Seq<char> {
    text.filter(|c: char| c != '\0')
}

/// Error detail, handed to the caller who reads the message and then frees
/// it. The message never holds a nul byte, which would truncate it.
pub struct RegolithError {
    message: Vec<u8>,
}

impl View for RegolithError {
    type V = Seq<u8>;

    closed spec fn view(&self) -> Seq<u8> {
        self.message@
    }
}

/// Only the nul character is encoded with a nul byte.
proof fn lemma_nul_bytes_of_a_char(c: char)
    ensures
        encode_scalar(c as u32).filter(|b: u8| b != 0) == if c == '\0' {
            Seq::empty()
        } else {
            encode_scalar(c as u32)
        },
{
    char_is_scalar(c);
    let scalar = c as u32;
    let bytes = encode_scalar(scalar);
    let pass = |b: u8| b != 0;
    assert(scalar <= 0x7F ==> (scalar & 0x7F) as u8 == scalar) by (bit_vector);
    if c == '\0' {
        reveal_with_fuel(Seq::filter, 2);
        assert(bytes =~= seq![0u8]);
        assert(bytes.drop_last() =~= Seq::<u8>::empty());
    } else {
        assert(forall|x: u8| #[trigger] (0x80u8 | x) != 0) by (bit_vector);
        assert(forall|x: u8| #[trigger] (0xC0u8 | x) != 0) by (bit_vector);
        assert(forall|x: u8| #[trigger] (0xE0u8 | x) != 0) by (bit_vector);
        assert(forall|x: u8| #[trigger] (0xF0u8 | x) != 0) by (bit_vector);
        seqs::lemma_everything_passes(bytes, pass);
    }
}

/// Dropping the nul bytes of a text drops its nul characters.
proof fn lemma_nul_bytes_of_a_text(text: Seq<char>)
    ensures
        encode_utf8(text).filter(|b: u8| b != 0) == encode_utf8(without_nuls(text)),
    decreases text.len(),
{
    let keep_byte = |b: u8| b != 0;
    let keep_char = |c: char| c != '\0';
    if text.len() == 0 {
        reveal(Seq::filter);
    } else {
        let (c, rest) = (text[0], text.drop_first());
        lemma_nul_bytes_of_a_char(c);
        lemma_nul_bytes_of_a_text(rest);
        assert(text =~= seq![c] + rest);
        Seq::filter_distributes_over_add(seq![c], rest, keep_char);
        Seq::filter_distributes_over_add(
            encode_scalar(c as u32),
            encode_utf8(rest),
            keep_byte,
        );
        assert(seq![c].filter(keep_char) == if c == '\0' {
            Seq::empty()
        } else {
            seq![c]
        }) by {
            reveal_with_fuel(Seq::filter, 2);
            assert(seq![c].drop_last() =~= Seq::<char>::empty());
        }
        let kept = without_nuls(rest);
        if c == '\0' {
            assert(without_nuls(text) =~= kept);
        } else {
            assert(without_nuls(text) =~= seq![c] + kept);
            assert((seq![c] + kept).drop_first() =~= kept);
        }
    }
}

impl RegolithError {
    #[verifier::type_invariant]
    spec fn holds_no_nul(self) -> bool {
        !self.message@.contains(0)
    }

    /// The detail that the caller is handed for `detail`. Interior nul
    /// characters would truncate the message, so they are stripped rather
    /// than losing it entirely.
    pub fn new(detail: &str) -> (err: RegolithError)
        ensures
            err@ == encode_utf8(without_nuls(detail@)),
    {
        let bytes = detail.as_bytes();
        let mut message: Vec<u8> = Vec::new();
        let mut at: usize = 0;
        let ghost keep = |b: u8| b != 0;
        assert(message@ =~= bytes@.take(0).filter(keep)) by {
            reveal(Seq::filter);
        }
        while at < bytes.len()
            invariant
                at <= bytes@.len(),
                keep == (|b: u8| b != 0),
                message@ == bytes@.take(at as int).filter(keep),
            decreases bytes@.len() - at,
        {
            let byte: u8 = bytes[at];
            proof {
                reveal(Seq::filter);
                assert(bytes@.take(at + 1).drop_last() =~= bytes@.take(at as int));
                assert(bytes@.take(at + 1).last() == byte);
            }
            if byte != 0 {
                message.push(byte);
            }
            at += 1;
        }
        proof {
            assert(bytes@.take(at as int) =~= bytes@);
            lemma_nul_bytes_of_a_text(detail@);
            if message@.contains(0) {
                bytes@.lemma_filter_contains_rev(keep, 0);
            }
        }
        RegolithError { message }
    }
}

/// The detail's message, borrowed from the object. `None` for no object.
pub fn regolith_error_message(err: Option<&RegolithError>) -> (message: Option<&[u8]>)
    ensures
        match err {
            None => message is None,
            Some(given) => message is Some && message->Some_0@ == given@ && !given@.contains(0),
        },
{
    match err {
        None => None,
        Some(given) => {
            proof {
                use_type_invariant(given);
            }
            Some(given.message.as_slice())
        },
    }
}

/// How the body of an entry point ended.
pub enum Outcome {
    Returned(Result<(), Failure>),
    Panicked(PanicPayload),
}

/// The status that an outcome is reported with.
pub open spec fn status_of(outcome: Outcome) -> i32 {
    match outcome {
        Outcome::Returned(Ok(())) => OK,
        Outcome::Returned(Err(failure)) => failure.status,
        Outcome::Panicked(_) => PANIC,
    }
}

/// The detail that comes with it.
pub open spec fn detail_of(outcome: Outcome) -> Option<Seq<char>> {
    match outcome {
        Outcome::Returned(Ok(())) => None,
        Outcome::Returned(Err(failure)) => failure@.detail,
        Outcome::Panicked(payload) => Some(payload@),
    }
}

/// Turn the outcome of an entry point's body into what the caller sees: the
/// status, and what is written to its `err` out-param if it has one. That
/// is a detail object where there is a detail and null where there is none,
/// so the caller need not initialise the slot. Without an `err` out-param
/// the detail is discarded.
pub fn guard(outcome: Outcome, err: bool) -> (reply: (i32, Option<RegolithError>))
    ensures
        reply.0 == status_of(outcome),
        match detail_of(outcome) {
            Some(detail) if err => reply.1 is Some && reply.1->Some_0@ == encode_utf8(
                without_nuls(detail),
            ),
            _ => reply.1 is None,
        },
{
    let (status, detail): (i32, Option<String>) = match outcome {
        Outcome::Returned(Ok(())) => (OK, None),
        Outcome::Returned(Err(failure)) => (failure.status, failure.detail),
        Outcome::Panicked(payload) => (PANIC, Some(panic_detail(payload))),
    };
    match detail {
        Some(text) => if err {
            (status, Some(RegolithError::new(text.as_str())))
        } else {
            (status, None)
        },
        None => (status, None),
    }
}

/// A caller is handed a detail only with [`failure::INVALID_ARG`],
/// [`PANIC`] or [`failure::OTHER`], given failures that keep to that.
pub proof fn law_only_three_codes_hand_out_a_detail(outcome: Outcome)
    requires
        outcome matches Outcome::Returned(Err(failure)) ==> failure::detail_is_due(failure@),
    ensures
        detail_of(outcome) is Some ==> {
            ||| status_of(outcome) == failure::INVALID_ARG
            ||| status_of(outcome) == PANIC
            ||| status_of(outcome) == failure::OTHER
        },
{
}

/// A message without nul characters reaches the caller unchanged.
pub proof fn law_message_without_nuls_is_unchanged(text: Seq<char>)
    requires
        !text.contains('\0'),
    ensures
        without_nuls(text) == text,
{
    let keep = |c: char| c != '\0';
    assert forall|i: int| 0 <= i < text.len() implies keep(#[trigger] text[i]) by {
        assert(text.contains(text[i]));
    }
    seqs::lemma_everything_passes(text, keep);
}

// ---------------------------------------------------------------------
// Bytes coming in.
// ---------------------------------------------------------------------

/// Input bytes as a call may use them: a length of zero is no bytes at all,
/// whatever the pointer is; a null pointer to anything longer is unusable.
pub open spec fn given_bytes(ptr: Option<&[u8]>, len: usize) -> Option<Seq<u8>> {
    match ptr {
        _ if len == 0 => Some(Seq::empty()),
        Some(bytes) => Some(bytes@),
        None => None,
    }
}

/// The bytes behind an optional reference.
pub open spec fn opt_bytes(bytes: Option<&[u8]>) -> Option<Seq<u8>> {
    match bytes {
        Some(found) => Some(found@),
        None => None,
    }
}

/// View caller-owned input bytes. `len == 0` yields an empty slice
/// regardless of the pointer, which is how a nil slice arrives.
pub fn in_bytes<'a>(ptr: Option<&'a [u8]>, len: usize) -> (bytes: Option<&'a [u8]>)
    requires
        ptr is Some ==> ptr->Some_0@.len() == len,
    ensures
        opt_bytes(bytes) == given_bytes(ptr, len),
{
    if len == 0 {
        let none: &'a [u8] = &[];
        assert(none@ =~= Seq::<u8>::empty());
        Some(none)
    } else {
        ptr
    }
}

/// Same as [`in_bytes`] but an empty or absent value maps to `None`, for
/// the optional bound arguments where "not provided" is meaningful.
pub fn in_opt_bytes<'a>(ptr: Option<&'a [u8]>, len: usize) -> (bytes: Option<&'a [u8]>)
    requires
        ptr is Some ==> ptr->Some_0@.len() == len,
    ensures
        bytes == if len == 0 {
            None
        } else {
            ptr
        },
{
    if len == 0 {
        None
    } else {
        ptr
    }
}

// ---------------------------------------------------------------------
// Bytes going out.
// ---------------------------------------------------------------------

/// The refusal of a null out-param.
pub open spec fn null_out() -> failure::FailureView {
    failure::invalid("null out-param"@)
}

/// Hand `bytes` over, where there are out-params for the pointer and the
/// length.
pub fn out_bytes(bytes: Vec<u8>, out_ptr: bool, out_len: bool) -> (outcome: Result<
    Vec<u8>,
    Failure,
>)
    ensures
        failure::said(outcome) == if out_ptr && out_len {
            Ok::<Vec<u8>, failure::FailureView>(bytes)
        } else {
            Err(null_out())
        },
{
    if !out_ptr || !out_len {
        return Err(Failure::invalid_arg("null out-param"));
    }
    Ok(bytes)
}

/// Handle keeping a borrowed value's bytes alive. Holding one pins whatever
/// owns the bytes, so it is meant to live only as long as it takes the
/// caller to copy them out.
pub struct RegolithValue {
    slice: DbSlice,
}

impl View for RegolithValue {
    type V = Seq<u8>;

    closed spec fn view(&self) -> Seq<u8> {
        engine::slice_bytes(self.slice)
    }
}

impl RegolithValue {
    /// The bytes the handle keeps alive.
    pub fn bytes(&self) -> (bytes: &[u8])
        ensures
            bytes@ == self@,
    {
        self.slice.as_slice()
    }
}

/// Lend `slice`'s bytes to the caller, where there are out-params for the
/// pointer, the length and the handle.
///
/// A zero-length value pins nothing, so it comes with no handle: the
/// caller is handed a null pointer, a length of zero and a null handle.
pub fn out_borrowed(slice: DbSlice, out_ptr: bool, out_len: bool, out_handle: bool) -> (outcome:
    Result<Option<RegolithValue>, Failure>)
    ensures
        if !out_ptr || !out_len || !out_handle {
            outcome is Err && outcome->Err_0@ == null_out()
        } else if engine::slice_bytes(slice).len() == 0 {
            outcome == Ok::<Option<RegolithValue>, Failure>(None)
        } else {
            &&& outcome is Ok
            &&& outcome->Ok_0 is Some
            &&& outcome->Ok_0->Some_0@ == engine::slice_bytes(slice)
        },
{
    if !out_ptr || !out_len || !out_handle {
        return Err(Failure::invalid_arg("null out-param"));
    }
    if slice.is_empty() {
        return Ok(None);
    }
    Ok(Some(RegolithValue { slice }))
}

/// A boolean out-param as 0 or 1.
pub fn out_bool(value: bool, out: bool) -> (outcome: Result<u8, Failure>)
    ensures
        failure::said(outcome) == if !out {
            Err::<u8, failure::FailureView>(null_out())
        } else if value {
            Ok(1)
        } else {
            Ok(0)
        },
{
    if !out {
        return Err(Failure::invalid_arg("null out-param"));
    }
    Ok(
        if value {
            1
        } else {
            0
        },
    )
}

// ---------------------------------------------------------------------
// Laws.
// ---------------------------------------------------------------------

/// What a call uses of a pointer to `len` bytes is exactly those bytes,
/// however many there are. No bytes are no bytes, whatever the pointer is,
/// and a null pointer to anything longer is unusable.
pub proof fn law_input_bytes_are_taken_whole(bytes: &[u8], len: usize)
    requires
        bytes@.len() == len,
    ensures
        given_bytes(Some(bytes), len) == Some(bytes@),
        given_bytes(None, 0) == Some(Seq::<u8>::empty()),
        len > 0 ==> given_bytes(None, len) is None,
        opt_bytes(Some(bytes)) == Some(bytes@),
        opt_bytes(None) is None,
{
    if len == 0 {
        assert(bytes@ =~= Seq::<u8>::empty());
    }
}

/// Only nul characters are stripped: whatever stands on either side of one
/// is treated as if it stood alone, and what is left holds none.
pub proof fn law_only_nuls_are_stripped(front: Seq<char>, back: Seq<char>)
    ensures
        without_nuls(front + back) == without_nuls(front) + without_nuls(back),
        without_nuls(seq!['\0']) == Seq::<char>::empty(),
        !without_nuls(front).contains('\0'),
{
    let keep = |c: char| c != '\0';
    Seq::filter_distributes_over_add(front, back, keep);
    assert(without_nuls(seq!['\0']) =~= Seq::<char>::empty()) by {
        reveal_with_fuel(Seq::filter, 2);
        assert(seq!['\0'].drop_last() =~= Seq::<char>::empty());
    }
    if without_nuls(front).contains('\0') {
        front.lemma_filter_contains_rev(keep, '\0');
    }
}

/// A call that returned reports 0 and no detail, a failure reports its own
/// status and detail, and a panic reports 7 and its text.
pub proof fn law_outcomes_are_reported_as_they_are(failure: Failure, payload: PanicPayload)
    ensures
        status_of(Outcome::Returned(Ok(()))) == 0,
        detail_of(Outcome::Returned(Ok(()))) is None,
        status_of(Outcome::Returned(Err(failure))) == failure.status,
        detail_of(Outcome::Returned(Err(failure))) == failure@.detail,
        status_of(Outcome::Panicked(payload)) == 7,
        detail_of(Outcome::Panicked(payload)) == Some(payload@),
        payload matches PanicPayload::Literal(text) ==> payload@ == text@,
        payload matches PanicPayload::Formatted(text) ==> payload@ == text@,
        payload is Opaque ==> payload@ == "unknown panic"@,
{
}

/// A detail is the bytes of its message, and a value those of its slice.
proof fn law_what_is_handed_out_is_what_is_held(err: RegolithError, value: RegolithValue)
    ensures
        err@ == err.message@,
        value@ == engine::slice_bytes(value.slice),
{
}

/// A null out-param is an unusable argument.
pub proof fn law_null_out_is_an_invalid_argument()
    ensures
        null_out().status == 6,
        null_out().detail == Some("null out-param"@),
{
}

} // verus!
