use vstd::prelude::*;

verus! {

/// An identifier as it arrives on the wire, before normalization.
#[derive(Debug, Clone, PartialEq, Eq)]
pub enum WireId {
    /// A JSON number that fits in an `i64`; only values that fit in an
    /// `i32` are accepted.
    Int(i64),
    /// A JSON string.
    Text(String),
    /// Anything else (a fraction, a number beyond `i64`, null, a boolean, ...).
    Other,
}

/// Why a wire identifier was rejected.
#[derive(Debug, PartialEq, Eq, Structural, Clone, Copy)]
pub enum IdError {
    /// A string that is not a decimal `i32`.
    NotANumber,
    /// A value that is neither an integer nor a string.
    WrongType,
    /// An integer outside the range of `i32`.
    OutOfRange,
}

pub open spec fn is_decimal_digit(c: char) -> bool {
    '0' <= c && c <= '9'
}

/// The value of a run of decimal digits.
pub open spec fn digits_value(s: Seq<char>) -> int
    decreases s.len(),
{
    if s.len() == 0 {
        0
    } else {
        digits_value(s.drop_last()) * 10 + (s.last() as int - '0' as int)
    }
}

/// An optional `+` or `-` sign followed by at least one decimal digit and
/// nothing else, whose value fits in an `i32`.
pub open spec fn decimal_i32(s: Seq<char>) -> Option<i32> {
    let signed = s.len() > 0 && (s[0] == '-' || s[0] == '+');
    let body = if signed { s.drop_first() } else { s };
    let magnitude = digits_value(body);
    let v = if signed && s[0] == '-' { -magnitude } else { magnitude };
    if body.len() > 0 && (forall|i: int| 0 <= i < body.len() ==> is_decimal_digit(#[trigger] body[i]))
        && i32::MIN <= v <= i32::MAX {
        Some(v as i32)
    } else {
        None
    }
}

/// Relies on `<i32 as FromStr>::from_str` (through `str::parse`): it accepts an
/// optional `+` or `-` sign followed by decimal digits only, and fails when the
/// text is empty, holds any other character, or the value overflows `i32`.
#[verifier::external_body]
fn parse_i32(s: &str) -> (r: Option<i32>)
    ensures
        r == decimal_i32(s@),
{
    s.parse::<i32>().ok()
}

/// What a wire identifier normalizes to: an integer must fit in an `i32`, a
/// string must be a decimal `i32`, anything else is refused.
pub open spec fn normalized_id(v: WireId) -> Result<i32, IdError> {
    match v {
        WireId::Int(n) => if i32::MIN <= n <= i32::MAX {
            Ok(n as i32)
        } else {
            Err(IdError::OutOfRange)
        },
        WireId::Text(s) => match decimal_i32(s@) {
            Some(n) => Ok(n),
            None => Err(IdError::NotANumber),
        },
        WireId::Other => Err(IdError::WrongType),
    }
}

/// Normalizes a chat or user identifier given either as a number or as a
/// numeric string.
pub fn normalize_id(v: &WireId) -> (r: Result<i32, IdError>)
    ensures
        r == normalized_id(*v),
{
    match v {
        WireId::Int(n) => if i32::MIN as i64 <= *n && *n <= i32::MAX as i64 {
            Ok(*n as i32)
        } else {
            Err(IdError::OutOfRange)
        },
        WireId::Text(s) => match parse_i32(s.as_str()) {
            Some(n) => Ok(n),
            None => Err(IdError::NotANumber),
        },
        WireId::Other => Err(IdError::WrongType),
    }
}

/// A chat message as submitted by a client, its identifiers not yet
/// normalized.
#[derive(Debug, Clone, PartialEq, Eq)]
pub struct WireMessage {
    pub chat_id: WireId,
    pub user_id: WireId,
    pub content: String,
    pub file_data: Option<String>,
    pub file_path: Option<String>,
    pub message_type: String,
}

/// A chat message with normalized identifiers, ready for the ingest pipeline.
#[derive(Debug, Clone, PartialEq, Eq)]
pub struct NewMessageRequest {
    pub chat_id: i32,
    pub user_id: i32,
    pub content: String,
    /// An inline attachment `<metadata>,<base64 payload>`.
    pub file_data: Option<String>,
    /// The name under which the attachment is stored.
    pub file_path: Option<String>,
    pub message_type: String,
}

impl NewMessageRequest {
    /// Builds a request from its wire form: both identifiers must normalize,
    /// the chat identifier being examined first; every other field is kept.
    pub fn from_wire(w: WireMessage) -> (r: Result<NewMessageRequest, IdError>)
        ensures
            match (normalized_id(w.chat_id), normalized_id(w.user_id)) {
                (Ok(c), Ok(u)) => r matches Ok(m) && m.chat_id == c && m.user_id == u
                    && m.content == w.content && m.file_data == w.file_data
                    && m.file_path == w.file_path && m.message_type == w.message_type,
                (Err(e), _) => r == Err::<NewMessageRequest, IdError>(e),
                (Ok(_), Err(e)) => r == Err::<NewMessageRequest, IdError>(e),
            },
    {
        let chat_id = match normalize_id(&w.chat_id) {
            Ok(c) => c,
            Err(e) => return Err(e),
        };
        let user_id = match normalize_id(&w.user_id) {
            Ok(u) => u,
            Err(e) => return Err(e),
        };
        Ok(NewMessageRequest {
            chat_id,
            user_id,
            content: w.content,
            file_data: w.file_data,
            file_path: w.file_path,
            message_type: w.message_type,
        })
    }
}

/// The character of a decimal digit `d < 10`.
pub open spec fn digit_char(d: nat) -> char {
    ((d + '0' as nat) as u32) as char
}

/// The decimal digits of `k`, most significant first, without leading zeros.
pub open spec fn digits_of(k: nat) -> Seq<char>
    decreases k,
{
    if k < 10 {
        seq![digit_char(k)]
    } else {
        digits_of(k / 10).push(digit_char(k % 10))
    }
}

/// The usual decimal text of `v`: a `-` for a negative value, then its digits.
pub open spec fn decimal_text(v: int) -> Seq<char> {
    if v < 0 {
        seq!['-'] + digits_of((-v) as nat)
    } else {
        digits_of(v as nat)
    }
}

proof fn lemma_digits_of(k: nat)
    ensures
        digits_of(k).len() > 0,
        forall|i: int| 0 <= i < digits_of(k).len() ==> is_decimal_digit(#[trigger] digits_of(k)[i]),
        digits_value(digits_of(k)) == k,
    decreases k,
{
    assert(digit_char(k % 10) as int == k % 10 + '0' as int);
    if k >= 10 {
        lemma_digits_of(k / 10);
        let d = digits_of(k);
        assert(d.drop_last() =~= digits_of(k / 10));
        assert(forall|i: int| 0 <= i < d.len() - 1 ==> d[i] == digits_of(k / 10)[i]);
        vstd::arithmetic::div_mod::lemma_fundamental_div_mod(k as int, 10);
        assert(d.last() == digit_char(k % 10));
        assert(digits_value(d) == digits_value(digits_of(k / 10)) * 10 + (k % 10));
        assert(digits_value(d) == (k / 10) * 10 + (k % 10));
        assert(digits_value(d) == k);
    } else {
        let d = digits_of(k);
        assert(d.drop_last() =~= Seq::<char>::empty());
        assert(k % 10 == k);
        assert(d.last() == digit_char(k));
        assert(digits_value(d.drop_last()) == 0);
        assert(digits_value(d) == k);
    }
}

/// The decimal text of every `i32` parses back to it.
pub proof fn lemma_decimal_text_parses(v: i32)
    ensures
        decimal_i32(decimal_text(v as int)) == Some(v),
{
    let t = decimal_text(v as int);
    if v < 0 {
        lemma_digits_of((-v) as nat);
        assert(t.drop_first() =~= digits_of((-v) as nat));
    } else {
        lemma_digits_of(v as nat);
        assert(is_decimal_digit(t[0]));
    }
}

/// An identifier sent as a number and one sent as the decimal text of the same
/// number normalize to the same value, that number.
pub proof fn lemma_text_and_number_agree(s: String, n: i32)
    requires
        s@ == decimal_text(n as int),
    ensures
        normalized_id(WireId::Text(s)) == normalized_id(WireId::Int(n as i64)),
        normalized_id(WireId::Text(s)) == Ok::<i32, IdError>(n),
{
    lemma_decimal_text_parses(n);
}

} // verus!
