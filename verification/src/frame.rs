use crate::decode::{level_texts, FrameView, LevelText, RawFrame, RawLevel};
use crate::errors::DecodeError;
use crate::text::{bytes_of, same_bytes};
use vstd::prelude::*;
use vstd::slice::slice_subrange;
use vstd::string::StringSliceAdditionalSpecFns;
use vstd::utf8::{decode_utf8, valid_utf8};

verus! {

/// The bytes that the grammar of a frame is made of.
pub const QUOTE: u8 = 34;

pub const BACKSLASH: u8 = 92;

pub const COMMA: u8 = 44;

pub const COLON: u8 = 58;

pub const OPEN_BRACKET: u8 = 91;

pub const CLOSE_BRACKET: u8 = 93;

pub const OPEN_BRACE: u8 = 123;

pub const CLOSE_BRACE: u8 = 125;

/// The fields that a frame can carry.
#[derive(Clone, Copy, Debug, PartialEq, Eq, Structural)]
pub enum Field {
    EventType,
    AssetId,
    Side,
    Price,
    Size,
    Sequence,
    Timestamp,
    OldTickSize,
    NewTickSize,
    Bids,
    Asks,
    Message,
}

/// The value of a member of a frame.
pub enum ValueView {
    Text(Seq<char>),
    Levels(Seq<LevelText>),
}

/// The fault of a frame that does not hold byte `c` at place `i`, if it
/// does not: it ends before, or holds another byte.
pub open spec fn expect(b: Seq<u8>, i: int, c: u8) -> Option<DecodeError> {
    if i >= b.len() {
        Some(DecodeError::Truncated)
    } else if b[i] != c {
        Some(DecodeError::Malformed)
    } else {
        None
    }
}

/// The first place from `i` on that holds a quote or a backslash, or the
/// length of the frame where none does.
pub open spec fn string_close(b: Seq<u8>, i: int) -> int
    decreases b.len() - i,
{
    if i < 0 || i >= b.len() {
        b.len() as int
    } else if b[i] == QUOTE || b[i] == BACKSLASH {
        i
    } else {
        string_close(b, i + 1)
    }
}

/// The string that starts at `i`: a quote, bytes that are neither quote nor
/// backslash, a quote. Yields the bytes between the quotes and the place
/// behind the closing one.
pub open spec fn string_at(b: Seq<u8>, i: int) -> Result<(Seq<u8>, int), DecodeError> {
    match expect(b, i, QUOTE) {
        Some(e) => Err(e),
        None => {
            let close = string_close(b, i + 1);
            if close >= b.len() {
                Err(DecodeError::Truncated)
            } else if b[close] == BACKSLASH {
                Err(DecodeError::Malformed)
            } else {
                Ok((b.subrange(i + 1, close), close + 1))
            }
        },
    }
}

/// The text that starts at `i`: a string whose bytes are valid UTF-8.
pub open spec fn text_at(b: Seq<u8>, i: int) -> Result<(Seq<char>, int), DecodeError> {
    match string_at(b, i) {
        Err(e) => Err(e),
        Ok((bytes, next)) => if valid_utf8(bytes) {
            Ok((decode_utf8(bytes), next))
        } else {
            Err(DecodeError::InvalidEncoding)
        },
    }
}

/// The place behind the name `key` and the colon that follows it, where
/// both stand at `i`.
pub open spec fn key_at(b: Seq<u8>, i: int, key: Seq<u8>) -> Result<int, DecodeError> {
    match string_at(b, i) {
        Err(e) => Err(e),
        Ok((name, next)) => if name != key {
            Err(DecodeError::Malformed)
        } else {
            match expect(b, next, COLON) {
                Some(e) => Err(e),
                None => Ok(next + 1),
            }
        },
    }
}

/// The level that starts at `i`: an object of a price and a size, in this
/// order, both texts.
pub open spec fn level_at(b: Seq<u8>, i: int) -> Result<(LevelText, int), DecodeError> {
    match expect(b, i, OPEN_BRACE) {
        Some(e) => Err(e),
        None => match key_at(b, i + 1, bytes_of("price"@)) {
            Err(e) => Err(e),
            Ok(p) => match text_at(b, p) {
                Err(e) => Err(e),
                Ok((price, q)) => match expect(b, q, COMMA) {
                    Some(e) => Err(e),
                    None => match key_at(b, q + 1, bytes_of("size"@)) {
                        Err(e) => Err(e),
                        Ok(r) => match text_at(b, r) {
                            Err(e) => Err(e),
                            Ok((size, t)) => match expect(b, t, CLOSE_BRACE) {
                                Some(e) => Err(e),
                                None => Ok((LevelText { price, size }, t + 1)),
                            },
                        },
                    },
                },
            },
        },
    }
}

/// The levels from `i` to the closing bracket, added to `acc`: a level,
/// then either a comma and more levels or the bracket.
pub open spec fn levels_from(b: Seq<u8>, i: int, acc: Seq<LevelText>) -> Result<
    (Seq<LevelText>, int),
    DecodeError,
>
    decreases b.len() - i,
{
    match level_at(b, i) {
        Err(e) => Err(e),
        Ok((level, j)) => if j >= b.len() {
            Err(DecodeError::Truncated)
        } else if b[j] == CLOSE_BRACKET {
            Ok((acc.push(level), j + 1))
        } else if b[j] == COMMA && j >= i {
            levels_from(b, j + 1, acc.push(level))
        } else {
            Err(DecodeError::Malformed)
        },
    }
}

/// The list of levels that starts at `i`: a bracket, levels with commas
/// between them, a bracket.
pub open spec fn array_at(b: Seq<u8>, i: int) -> Result<(Seq<LevelText>, int), DecodeError> {
    match expect(b, i, OPEN_BRACKET) {
        Some(e) => Err(e),
        None => if i + 1 < b.len() && b[i + 1] == CLOSE_BRACKET {
            Ok((Seq::empty(), i + 2))
        } else {
            levels_from(b, i + 1, Seq::empty())
        },
    }
}

/// The value that starts at `i`: a list of levels where a bracket stands
/// there, a text otherwise.
pub open spec fn value_at(b: Seq<u8>, i: int) -> Result<(ValueView, int), DecodeError> {
    if 0 <= i < b.len() && b[i] == OPEN_BRACKET {
        match array_at(b, i) {
            Err(e) => Err(e),
            Ok((levels, next)) => Ok((ValueView::Levels(levels), next)),
        }
    } else {
        match text_at(b, i) {
            Err(e) => Err(e),
            Ok((text, next)) => Ok((ValueView::Text(text), next)),
        }
    }
}

/// The field that a name stands for, if it stands for one.
pub open spec fn field_of(name: Seq<u8>) -> Option<Field> {
    if name == bytes_of("event_type"@) {
        Some(Field::EventType)
    } else if name == bytes_of("asset_id"@) {
        Some(Field::AssetId)
    } else if name == bytes_of("side"@) {
        Some(Field::Side)
    } else if name == bytes_of("price"@) {
        Some(Field::Price)
    } else if name == bytes_of("size"@) {
        Some(Field::Size)
    } else if name == bytes_of("sequence"@) {
        Some(Field::Sequence)
    } else if name == bytes_of("timestamp"@) {
        Some(Field::Timestamp)
    } else if name == bytes_of("old_tick_size"@) {
        Some(Field::OldTickSize)
    } else if name == bytes_of("new_tick_size"@) {
        Some(Field::NewTickSize)
    } else if name == bytes_of("bids"@) {
        Some(Field::Bids)
    } else if name == bytes_of("asks"@) {
        Some(Field::Asks)
    } else if name == bytes_of("message"@) {
        Some(Field::Message)
    } else {
        None
    }
}

/// The frame with a member stored in it. A member of a name that stands
/// for no field is passed over; a later member of a field replaces an
/// earlier one; a value of the wrong kind for its field is a fault.
pub open spec fn stored(acc: FrameView, field: Option<Field>, value: ValueView) -> Result<
    FrameView,
    DecodeError,
> {
    match field {
        None => Ok(acc),
        Some(f) => match value {
            ValueView::Levels(levels) => match f {
                Field::Bids => Ok(FrameView { bids: Some(levels), ..acc }),
                Field::Asks => Ok(FrameView { asks: Some(levels), ..acc }),
                _ => Err(DecodeError::Malformed),
            },
            ValueView::Text(text) => match f {
                Field::EventType => Ok(FrameView { event_type: Some(text), ..acc }),
                Field::AssetId => Ok(FrameView { asset_id: Some(text), ..acc }),
                Field::Side => Ok(FrameView { side: Some(text), ..acc }),
                Field::Price => Ok(FrameView { price: Some(text), ..acc }),
                Field::Size => Ok(FrameView { size: Some(text), ..acc }),
                Field::Sequence => Ok(FrameView { sequence: Some(text), ..acc }),
                Field::Timestamp => Ok(FrameView { timestamp: Some(text), ..acc }),
                Field::OldTickSize => Ok(FrameView { old_tick_size: Some(text), ..acc }),
                Field::NewTickSize => Ok(FrameView { new_tick_size: Some(text), ..acc }),
                Field::Message => Ok(FrameView { message: Some(text), ..acc }),
                _ => Err(DecodeError::Malformed),
            },
        },
    }
}

/// The members from `i` to the end of the frame, stored in `acc`: a name,
/// a colon, a value, then either a comma and more members or the closing
/// brace, with which the frame has to end.
pub open spec fn members_from(b: Seq<u8>, i: int, acc: FrameView) -> Result<FrameView, DecodeError>
    decreases b.len() - i,
{
    match string_at(b, i) {
        Err(e) => Err(e),
        Ok((name, n)) => match expect(b, n, COLON) {
            Some(e) => Err(e),
            None => match value_at(b, n + 1) {
                Err(e) => Err(e),
                Ok((value, j)) => match stored(acc, field_of(name), value) {
                    Err(e) => Err(e),
                    Ok(next) => if j >= b.len() {
                        Err(DecodeError::Truncated)
                    } else if b[j] == CLOSE_BRACE {
                        if j + 1 == b.len() {
                            Ok(next)
                        } else {
                            Err(DecodeError::Malformed)
                        }
                    } else if b[j] == COMMA && j >= i {
                        members_from(b, j + 1, next)
                    } else {
                        Err(DecodeError::Malformed)
                    },
                },
            },
        },
    }
}

/// The fields of a frame, as its bytes write them. A frame is one object
/// in compact form, without white space between its parts and without
/// escapes in its strings: braces around members, each a name, a colon and
/// a value, with commas between them. A value is a text in quotes or, for
/// the two sides of a baseline, a list of levels in brackets.
pub open spec fn frame_spec(b: Seq<u8>) -> Result<FrameView, DecodeError> {
    match expect(b, 0, OPEN_BRACE) {
        Some(e) => Err(e),
        None => if 1 < b.len() && b[1] == CLOSE_BRACE {
            if b.len() == 2 {
                Ok(FrameView::empty())
            } else {
                Err(DecodeError::Malformed)
            }
        } else {
            members_from(b, 1, FrameView::empty())
        },
    }
}

/// `core::str::from_utf8`, which checks that bytes are valid UTF-8 and
/// reads them as text: the result is the text that the bytes encode where
/// they are valid, and nothing where they are not.
#[verifier::external_body]
fn utf8_text(bytes: &[u8]) -> (r: Option<String>)
    ensures
        r is Some <==> valid_utf8(bytes@),
        r is Some ==> r->Some_0@ == decode_utf8(bytes@),
{
    match core::str::from_utf8(bytes) {
        Ok(text) => Some(text.to_owned()),
        Err(_) => None,
    }
}

/// Finds the bytes of the string that starts at `i`: where they begin and
/// where they end.
fn scan_string(b: &[u8], i: usize) -> (r: Result<(usize, usize), DecodeError>)
    ensures
        r is Ok <==> string_at(b@, i as int) is Ok,
        r is Err ==> r->Err_0 == string_at(b@, i as int)->Err_0,
        r is Ok ==> r->Ok_0.0 == i + 1,
        r is Ok ==> r->Ok_0.0 <= r->Ok_0.1 < b@.len(),
        r is Ok ==> b@.subrange(r->Ok_0.0 as int, r->Ok_0.1 as int) == string_at(
            b@,
            i as int,
        )->Ok_0.0,
        r is Ok ==> r->Ok_0.1 + 1 == string_at(b@, i as int)->Ok_0.1,
{
    let n: usize = b.len();
    if i >= n {
        return Err(DecodeError::Truncated);
    }
    if b[i] != QUOTE {
        return Err(DecodeError::Malformed);
    }
    let mut j: usize = i + 1;
    while j < n && b[j] != QUOTE && b[j] != BACKSLASH
        invariant
            i < j <= n,
            n == b@.len(),
            string_close(b@, i + 1) == string_close(b@, j as int),
        decreases n - j,
    {
        j += 1;
    }
    if j >= n {
        Err(DecodeError::Truncated)
    } else if b[j] == BACKSLASH {
        Err(DecodeError::Malformed)
    } else {
        Ok((i + 1, j))
    }
}

fn read_text(b: &[u8], i: usize) -> (r: Result<(String, usize), DecodeError>)
    ensures
        r is Ok <==> text_at(b@, i as int) is Ok,
        r is Err ==> r->Err_0 == text_at(b@, i as int)->Err_0,
        r is Ok ==> r->Ok_0.0@ == text_at(b@, i as int)->Ok_0.0 && r->Ok_0.1 == text_at(
            b@,
            i as int,
        )->Ok_0.1 && i < r->Ok_0.1 <= b@.len(),
{
    let n: usize = b.len();
    let (from, to) = match scan_string(b, i) {
        Ok(span) => span,
        Err(e) => {
            return Err(e);
        },
    };
    match utf8_text(slice_subrange(b, from, to)) {
        Some(text) => Ok((text, to + 1)),
        None => Err(DecodeError::InvalidEncoding),
    }
}

fn read_key(b: &[u8], i: usize, key: &str) -> (r: Result<usize, DecodeError>)
    ensures
        r is Ok <==> key_at(b@, i as int, bytes_of(key@)) is Ok,
        r is Err ==> r->Err_0 == key_at(b@, i as int, bytes_of(key@))->Err_0,
        r is Ok ==> r->Ok_0 == key_at(b@, i as int, bytes_of(key@))->Ok_0 && i < r->Ok_0
            <= b@.len(),
{
    let n: usize = b.len();
    let (from, to) = match scan_string(b, i) {
        Ok(span) => span,
        Err(e) => {
            return Err(e);
        },
    };
    if !same_bytes(slice_subrange(b, from, to), key.as_bytes()) {
        return Err(DecodeError::Malformed);
    }
    if to + 1 >= n {
        return Err(DecodeError::Truncated);
    }
    if b[to + 1] != COLON {
        return Err(DecodeError::Malformed);
    }
    Ok(to + 2)
}

fn read_level(b: &[u8], i: usize) -> (r: Result<(RawLevel, usize), DecodeError>)
    ensures
        r is Ok <==> level_at(b@, i as int) is Ok,
        r is Err ==> r->Err_0 == level_at(b@, i as int)->Err_0,
        r is Ok ==> r->Ok_0.0@ == level_at(b@, i as int)->Ok_0.0 && r->Ok_0.1 == level_at(
            b@,
            i as int,
        )->Ok_0.1 && i < r->Ok_0.1 <= b@.len(),
{
    let n: usize = b.len();
    if i >= n {
        return Err(DecodeError::Truncated);
    }
    if b[i] != OPEN_BRACE {
        return Err(DecodeError::Malformed);
    }
    let p: usize = match read_key(b, i + 1, "price") {
        Ok(p) => p,
        Err(e) => {
            return Err(e);
        },
    };
    let (price, q) = match read_text(b, p) {
        Ok(v) => v,
        Err(e) => {
            return Err(e);
        },
    };
    if q >= n {
        return Err(DecodeError::Truncated);
    }
    if b[q] != COMMA {
        return Err(DecodeError::Malformed);
    }
    let s: usize = match read_key(b, q + 1, "size") {
        Ok(s) => s,
        Err(e) => {
            return Err(e);
        },
    };
    let (size, t) = match read_text(b, s) {
        Ok(v) => v,
        Err(e) => {
            return Err(e);
        },
    };
    if t >= n {
        return Err(DecodeError::Truncated);
    }
    if b[t] != CLOSE_BRACE {
        return Err(DecodeError::Malformed);
    }
    Ok((RawLevel { price, size }, t + 1))
}

fn read_array(b: &[u8], i: usize) -> (r: Result<(Vec<RawLevel>, usize), DecodeError>)
    requires
        i < b@.len(),
        b@[i as int] == OPEN_BRACKET,
    ensures
        r is Ok <==> array_at(b@, i as int) is Ok,
        r is Err ==> r->Err_0 == array_at(b@, i as int)->Err_0,
        r is Ok ==> level_texts(r->Ok_0.0@) == array_at(b@, i as int)->Ok_0.0 && r->Ok_0.1
            == array_at(b@, i as int)->Ok_0.1 && i < r->Ok_0.1 <= b@.len(),
{
    let n: usize = b.len();
    let mut out: Vec<RawLevel> = Vec::new();
    if i + 1 < n && b[i + 1] == CLOSE_BRACKET {
        proof {
            assert(level_texts(out@) =~= Seq::<LevelText>::empty());
        }
        return Ok((out, i + 2));
    }
    let mut at: usize = i + 1;
    proof {
        assert(level_texts(out@) =~= Seq::<LevelText>::empty());
    }
    loop
        invariant
            i < at <= n,
            n == b@.len(),
            array_at(b@, i as int) == levels_from(b@, at as int, level_texts(out@)),
        decreases n - at,
    {
        let (level, j) = match read_level(b, at) {
            Ok(v) => v,
            Err(e) => {
                return Err(e);
            },
        };
        let ghost before = level_texts(out@);
        out.push(level);
        proof {
            assert(level_texts(out@) =~= before.push(level@));
        }
        if j >= n {
            return Err(DecodeError::Truncated);
        }
        if b[j] == CLOSE_BRACKET {
            return Ok((out, j + 1));
        }
        if b[j] != COMMA {
            return Err(DecodeError::Malformed);
        }
        at = j + 1;
    }
}

fn classify(name: &[u8]) -> (r: Option<Field>)
    ensures
        r == field_of(name@),
{
    if same_bytes(name, "event_type".as_bytes()) {
        Some(Field::EventType)
    } else if same_bytes(name, "asset_id".as_bytes()) {
        Some(Field::AssetId)
    } else if same_bytes(name, "side".as_bytes()) {
        Some(Field::Side)
    } else if same_bytes(name, "price".as_bytes()) {
        Some(Field::Price)
    } else if same_bytes(name, "size".as_bytes()) {
        Some(Field::Size)
    } else if same_bytes(name, "sequence".as_bytes()) {
        Some(Field::Sequence)
    } else if same_bytes(name, "timestamp".as_bytes()) {
        Some(Field::Timestamp)
    } else if same_bytes(name, "old_tick_size".as_bytes()) {
        Some(Field::OldTickSize)
    } else if same_bytes(name, "new_tick_size".as_bytes()) {
        Some(Field::NewTickSize)
    } else if same_bytes(name, "bids".as_bytes()) {
        Some(Field::Bids)
    } else if same_bytes(name, "asks".as_bytes()) {
        Some(Field::Asks)
    } else if same_bytes(name, "message".as_bytes()) {
        Some(Field::Message)
    } else {
        None
    }
}

fn store_text(frame: &mut RawFrame, field: Option<Field>, text: String) -> (r: Result<
    (),
    DecodeError,
>)
    ensures
        r is Ok <==> stored(old(frame)@, field, ValueView::Text(text@)) is Ok,
        r is Err ==> r->Err_0 == stored(old(frame)@, field, ValueView::Text(text@))->Err_0,
        r is Ok ==> final(frame)@ == stored(old(frame)@, field, ValueView::Text(text@))->Ok_0,
{
    match field {
        None => {},
        Some(f) => match f {
            Field::EventType => {
                frame.event_type = Some(text);
            },
            Field::AssetId => {
                frame.asset_id = Some(text);
            },
            Field::Side => {
                frame.side = Some(text);
            },
            Field::Price => {
                frame.price = Some(text);
            },
            Field::Size => {
                frame.size = Some(text);
            },
            Field::Sequence => {
                frame.sequence = Some(text);
            },
            Field::Timestamp => {
                frame.timestamp = Some(text);
            },
            Field::OldTickSize => {
                frame.old_tick_size = Some(text);
            },
            Field::NewTickSize => {
                frame.new_tick_size = Some(text);
            },
            Field::Message => {
                frame.message = Some(text);
            },
            _ => {
                return Err(DecodeError::Malformed);
            },
        },
    }
    Ok(())
}

fn store_levels(frame: &mut RawFrame, field: Option<Field>, levels: Vec<RawLevel>) -> (r: Result<
    (),
    DecodeError,
>)
    ensures
        r is Ok <==> stored(old(frame)@, field, ValueView::Levels(level_texts(levels@))) is Ok,
        r is Err ==> r->Err_0 == stored(
            old(frame)@,
            field,
            ValueView::Levels(level_texts(levels@)),
        )->Err_0,
        r is Ok ==> final(frame)@ == stored(
            old(frame)@,
            field,
            ValueView::Levels(level_texts(levels@)),
        )->Ok_0,
{
    match field {
        None => {},
        Some(f) => match f {
            Field::Bids => {
                frame.bids = Some(levels);
            },
            Field::Asks => {
                frame.asks = Some(levels);
            },
            _ => {
                return Err(DecodeError::Malformed);
            },
        },
    }
    Ok(())
}

/// Cuts a frame into its fields: see [`frame_spec`].
pub fn parse_frame(b: &[u8]) -> (r: Result<RawFrame, DecodeError>)
    ensures
        r is Ok <==> frame_spec(b@) is Ok,
        r is Err ==> r->Err_0 == frame_spec(b@)->Err_0,
        r is Ok ==> r->Ok_0@ == frame_spec(b@)->Ok_0,
{
    let n: usize = b.len();
    let mut frame = RawFrame {
        event_type: None,
        asset_id: None,
        side: None,
        price: None,
        size: None,
        sequence: None,
        timestamp: None,
        old_tick_size: None,
        new_tick_size: None,
        bids: None,
        asks: None,
        message: None,
    };
    if n == 0 {
        return Err(DecodeError::Truncated);
    }
    if b[0] != OPEN_BRACE {
        return Err(DecodeError::Malformed);
    }
    if n > 1 && b[1] == CLOSE_BRACE {
        if n == 2 {
            return Ok(frame);
        } else {
            return Err(DecodeError::Malformed);
        }
    }
    let mut at: usize = 1;
    loop
        invariant
            0 < at <= n,
            n == b@.len(),
            frame_spec(b@) == members_from(b@, at as int, frame@),
        decreases n - at,
    {
        let (from, to) = match scan_string(b, at) {
            Ok(span) => span,
            Err(e) => {
                return Err(e);
            },
        };
        let field: Option<Field> = classify(slice_subrange(b, from, to));
        if to + 1 >= n {
            return Err(DecodeError::Truncated);
        }
        if b[to + 1] != COLON {
            return Err(DecodeError::Malformed);
        }
        let v: usize = to + 2;
        let j: usize;
        if v < n && b[v] == OPEN_BRACKET {
            let (levels, next) = match read_array(b, v) {
                Ok(x) => x,
                Err(e) => {
                    return Err(e);
                },
            };
            match store_levels(&mut frame, field, levels) {
                Ok(()) => {},
                Err(e) => {
                    return Err(e);
                },
            }
            j = next;
        } else {
            let (text, next) = match read_text(b, v) {
                Ok(x) => x,
                Err(e) => {
                    return Err(e);
                },
            };
            match store_text(&mut frame, field, text) {
                Ok(()) => {},
                Err(e) => {
                    return Err(e);
                },
            }
            j = next;
        }
        if j >= n {
            return Err(DecodeError::Truncated);
        }
        if b[j] == CLOSE_BRACE {
            if j + 1 == n {
                return Ok(frame);
            } else {
                return Err(DecodeError::Malformed);
            }
        }
        if b[j] != COMMA {
            return Err(DecodeError::Malformed);
        }
        at = j + 1;
    }
}

} // verus!
