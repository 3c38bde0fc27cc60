//! The details of one certificate, and the text that shows them.
//!
//! The tool prints the certificate's name, its validity, its public key in
//! base64 and what is known of its signature:
//!
//! ```text
//! Certificate name:
//!   /test/KEY/%A8C%0C%13/self/%FD%00
//! Validity:
//!   NotBefore: 20200805T132935
//!   NotAfter: 20400731T132935
//! Public key bits:
//!   MIIBSzCCAQMGByqGSM49AgEwgfcCAQEwLAYHKoZIzj0BAQIhAP////8AAAABAAAA
//!   ...
//! Signature Information:
//!   Signature Type: SignatureSha256WithEcdsa
//!   Key Locator: Name=/test/KEY/%A8C%0C%13
//! ```

use vstd::prelude::*;
use vstd::string::{StrSliceExecFns, StringExecFns};
use chrono::TimeZone;
use crate::command::text::{
    after_spaces, chars_of, find, find_from, matches_at, skip_spaces, slice_string, stands_at,
};
use crate::command::{Error, ErrorView};
use crate::data::{keep_last, keep_last_by_name, named_view};
use crate::time::Time;

verus! {

/// What the tool prints of a certificate. The signature information holds
/// each field once, with the value printed last for it.
#[derive(Debug, Clone, PartialEq, Eq)]
pub struct CertificateInfo {
    pub certificate_name: String,
    pub validity_not_before: Time,
    pub validity_not_after: Time,
    pub public_key_bits: Vec<u8>,
    pub signature_information: Vec<(String, String)>,
}

/// The details of a certificate, its texts taken by their characters.
pub struct CertificateInfoView {
    pub certificate_name: Seq<char>,
    pub validity_not_before: Time,
    pub validity_not_after: Time,
    pub public_key_bits: Seq<u8>,
    pub signature_information: Seq<(Seq<char>, Seq<char>)>,
}

impl View for CertificateInfo {
    type V = CertificateInfoView;

    open spec fn view(&self) -> CertificateInfoView {
        CertificateInfoView {
            certificate_name: self.certificate_name@,
            validity_not_before: self.validity_not_before,
            validity_not_after: self.validity_not_after,
            public_key_bits: self.public_key_bits@,
            signature_information: named_view(self.signature_information@),
        }
    }
}

/// A date and a time of day, as printed: in UTC, by the calendar.
#[derive(Debug, Clone, Copy, PartialEq, Eq, Structural)]
pub struct CivilTime {
    pub year: i32,
    pub month: u32,
    pub day: u32,
    pub hour: u32,
    pub minute: u32,
    pub second: u32,
}

/// What the text of a certificate holds, before dates are placed on the time
/// line and before the key is decoded.
#[derive(Debug, Clone, PartialEq, Eq)]
pub struct Printed {
    pub certificate_name: String,
    pub not_before: CivilTime,
    pub not_after: CivilTime,
    /// The key in base64, blanks and line breaks taken out.
    pub key_text: String,
    /// The fields of the signature information, in the order printed.
    pub signature_information: Vec<(String, String)>,
}

/// What the text of a certificate holds, its texts taken by their characters.
pub struct PrintedView {
    pub certificate_name: Seq<char>,
    pub not_before: CivilTime,
    pub not_after: CivilTime,
    pub key_text: Seq<char>,
    pub signature_information: Seq<(Seq<char>, Seq<char>)>,
}

impl View for Printed {
    type V = PrintedView;

    open spec fn view(&self) -> PrintedView {
        PrintedView {
            certificate_name: self.certificate_name@,
            not_before: self.not_before,
            not_after: self.not_after,
            key_text: self.key_text@,
            signature_information: named_view(self.signature_information@),
        }
    }
}

/// Where the reading of a certificate's text went wrong.
#[derive(Debug, Clone, Copy, PartialEq, Eq, Structural)]
pub enum Fault {
    /// The heading `Certificate name:` is not there.
    NameHeading,
    /// The line of the name does not end.
    Name,
    /// The heading `Validity:` is not there.
    ValidityHeading,
    /// The label `NotBefore: ` is not there.
    NotBeforeLabel,
    /// What follows `NotBefore: ` is no date and time.
    NotBefore,
    /// The label `NotAfter: ` is not there.
    NotAfterLabel,
    /// What follows `NotAfter: ` is no date and time.
    NotAfter,
    /// The heading `Public key bits:` is not there.
    KeyHeading,
    /// The heading `Signature Information:` is not there.
    SignatureHeading,
    /// The start of the validity is no date of the calendar.
    NotBeforeDate,
    /// The end of the validity is no date of the calendar.
    NotAfterDate,
    /// The key is not base64.
    Key,
    /// Text follows the certificate.
    Trailing,
}

impl Fault {
    /// What the fault is called in an error.
    pub open spec fn text(self) -> Seq<char> {
        match self {
            Fault::NameHeading => "expected `Certificate name:`"@,
            Fault::Name => "certificate name does not end its line"@,
            Fault::ValidityHeading => "expected `Validity:`"@,
            Fault::NotBeforeLabel => "expected `NotBefore: `"@,
            Fault::NotBefore => "start of validity is not of the form YYYYMMDDTHHMMSS"@,
            Fault::NotAfterLabel => "expected `NotAfter: `"@,
            Fault::NotAfter => "end of validity is not of the form YYYYMMDDTHHMMSS"@,
            Fault::KeyHeading => "expected `Public key bits:`"@,
            Fault::SignatureHeading => "expected `Signature Information:`"@,
            Fault::NotBeforeDate => "start of validity is no date"@,
            Fault::NotAfterDate => "end of validity is no date"@,
            Fault::Key => "public key bits are not base64"@,
            Fault::Trailing => "text behind the certificate"@,
        }
    }

    /// The error that reports the fault.
    pub fn error(&self) -> (e: Error)
        ensures
            e@ == ErrorView::ParsingError(self.text()),
    {
        let text = match self {
            Fault::NameHeading => "expected `Certificate name:`",
            Fault::Name => "certificate name does not end its line",
            Fault::ValidityHeading => "expected `Validity:`",
            Fault::NotBeforeLabel => "expected `NotBefore: `",
            Fault::NotBefore => "start of validity is not of the form YYYYMMDDTHHMMSS",
            Fault::NotAfterLabel => "expected `NotAfter: `",
            Fault::NotAfter => "end of validity is not of the form YYYYMMDDTHHMMSS",
            Fault::KeyHeading => "expected `Public key bits:`",
            Fault::SignatureHeading => "expected `Signature Information:`",
            Fault::NotBeforeDate => "start of validity is no date",
            Fault::NotAfterDate => "end of validity is no date",
            Fault::Key => "public key bits are not base64",
            Fault::Trailing => "text behind the certificate",
        };
        Error::ParsingError(String::from_str(text))
    }
}

/// Whether the character is one of the ten digits.
pub open spec fn is_digit(c: char) -> bool {
    '0' <= c <= '9'
}

/// Whether the text holds digits only.
pub open spec fn all_digits(s: Seq<char>) -> bool {
    forall|i: int| 0 <= i < s.len() ==> is_digit(#[trigger] s[i])
}

/// The number that a text of digits stands for, in base ten.
pub open spec fn digits_value(s: Seq<char>) -> int
    decreases s.len(),
{
    if s.len() == 0 {
        0
    } else {
        digits_value(s.drop_last()) * 10 + (s.last() as int - '0' as int)
    }
}

/// The number that a text stands for: digits, at least one, with or without
/// a sign before them. A minus sign is read only where `signed` says so.
pub open spec fn number(s: Seq<char>, signed: bool) -> Option<int> {
    if s.len() == 0 {
        None
    } else if s[0] == '+' || (signed && s[0] == '-') {
        let digits = s.drop_first();
        if digits.len() > 0 && all_digits(digits) {
            Some(
                if s[0] == '-' {
                    -digits_value(digits)
                } else {
                    digits_value(digits)
                },
            )
        } else {
            None
        }
    } else if all_digits(s) {
        Some(digits_value(s))
    } else {
        None
    }
}

/// A date and time read from `i`: blanks, then four characters for the year,
/// two for the month, two for the day, a `T`, and two characters each for
/// hour, minute and second. Gives the position behind it, too.
pub open spec fn civil_time_at(s: Seq<char>, i: int) -> Option<(int, CivilTime)> {
    let a = after_spaces(s, i);
    if a < 0 || a + 15 > s.len() || s[a + 8] != 'T' {
        None
    } else {
        match (
            number(s.subrange(a, a + 4), true),
            number(s.subrange(a + 4, a + 6), false),
            number(s.subrange(a + 6, a + 8), false),
            number(s.subrange(a + 9, a + 11), false),
            number(s.subrange(a + 11, a + 13), false),
            number(s.subrange(a + 13, a + 15), false),
        ) {
            (Some(year), Some(month), Some(day), Some(hour), Some(minute), Some(second)) => Some(
                (
                    a + 15,
                    CivilTime {
                        year: year as i32,
                        month: month as u32,
                        day: day as u32,
                        hour: hour as u32,
                        minute: minute as u32,
                        second: second as u32,
                    },
                ),
            ),
            _ => None,
        }
    }
}

/// Whether the character is white space, as Unicode has it.
pub open spec fn is_whitespace(c: char) -> bool {
    ||| '\u{9}' <= c <= '\u{d}'
    ||| c == ' '
    ||| c == '\u{85}'
    ||| c == '\u{a0}'
    ||| c == '\u{1680}'
    ||| '\u{2000}' <= c <= '\u{200a}'
    ||| c == '\u{2028}'
    ||| c == '\u{2029}'
    ||| c == '\u{202f}'
    ||| c == '\u{205f}'
    ||| c == '\u{3000}'
}

/// The first position from `from` up to `to` that holds no white space.
pub open spec fn trim_start(s: Seq<char>, from: int, to: int) -> int
    decreases to - from,
{
    if 0 <= from < to <= s.len() && is_whitespace(s[from]) {
        trim_start(s, from + 1, to)
    } else {
        from
    }
}

/// The position behind the last character between `from` and `to` that is
/// no white space.
pub open spec fn trim_end(s: Seq<char>, from: int, to: int) -> int
    decreases to - from,
{
    if 0 <= from < to <= s.len() && is_whitespace(s[to - 1]) {
        trim_end(s, from, to - 1)
    } else {
        to
    }
}

/// Whether the character separates the lines and groups in which a key is
/// printed: a space, a line feed or a carriage return.
pub open spec fn is_break(c: char) -> bool {
    c == ' ' || c == '\n' || c == '\r'
}

/// The text without the characters that separate lines and groups.
pub open spec fn without_breaks(s: Seq<char>) -> Seq<char>
    decreases s.len(),
{
    if s.len() == 0 {
        Seq::empty()
    } else if is_break(s.last()) {
        without_breaks(s.drop_last())
    } else {
        without_breaks(s.drop_last()).push(s.last())
    }
}

/// The key as printed between `from` and `to`, made ready for decoding:
/// white space at both ends dropped, and then every space, line feed and
/// carriage return taken out.
pub open spec fn key_text(s: Seq<char>, from: int, to: int) -> Seq<char> {
    let start = trim_start(s, from, to);
    without_breaks(s.subrange(start, trim_end(s, start, to)))
}

/// A field of the signature information read from `i`: blanks, the name up
/// to the first colon, the colon, blanks, and the value up to the end of the
/// line, which must end in a line feed. Gives the position behind that line
/// feed, and the field.
pub open spec fn field_at(s: Seq<char>, i: int) -> Option<(int, (Seq<char>, Seq<char>))> {
    let a = after_spaces(s, i);
    match find(s, a, seq![':']) {
        None => None,
        Some(colon) => {
            let b = after_spaces(s, colon + 1);
            match find(s, b, seq!['\n']) {
                None => None,
                Some(end) => Some((end + 1, (s.subrange(a, colon), s.subrange(b, end)))),
            }
        },
    }
}

/// The fields read from `i` on, one after the other, up to the first
/// position at which no field can be read.
pub open spec fn fields_from(s: Seq<char>, i: int) -> (int, Seq<(Seq<char>, Seq<char>)>)
    decreases s.len() - i,
{
    match field_at(s, i) {
        None => (i, Seq::empty()),
        Some((next, field)) => if i < next <= s.len() {
            let (end, rest) = fields_from(s, next);
            (end, seq![field] + rest)
        } else {
            (i, Seq::empty())
        },
    }
}

/// The position behind `heading`, where it follows the blanks from `i` on.
pub open spec fn heading_at(s: Seq<char>, i: int, heading: Seq<char>) -> Option<int> {
    let a = after_spaces(s, i);
    if stands_at(s, a, heading) {
        Some(a + heading.len())
    } else {
        None
    }
}

/// What a text read from `i` holds of a certificate, and the position behind
/// it; or where the reading went wrong.
pub open spec fn printed_at(s: Seq<char>, i: int) -> Result<(int, PrintedView), Fault> {
    match heading_at(s, i, "Certificate name:"@) {
        None => Err(Fault::NameHeading),
        Some(p) => {
            let name_from = after_spaces(s, p);
            match find(s, name_from, seq!['\n']) {
                None => Err(Fault::Name),
                Some(name_to) => match heading_at(s, name_to, "Validity:"@) {
                    None => Err(Fault::ValidityHeading),
                    Some(p) => match heading_at(s, p, "NotBefore: "@) {
                        None => Err(Fault::NotBeforeLabel),
                        Some(p) => match civil_time_at(s, p) {
                            None => Err(Fault::NotBefore),
                            Some((p, not_before)) => match heading_at(s, p, "NotAfter: "@) {
                                None => Err(Fault::NotAfterLabel),
                                Some(p) => match civil_time_at(s, p) {
                                    None => Err(Fault::NotAfter),
                                    Some((p, not_after)) => match heading_at(
                                        s,
                                        p,
                                        "Public key bits:"@,
                                    ) {
                                        None => Err(Fault::KeyHeading),
                                        Some(p) => {
                                            let key_from = after_spaces(s, p);
                                            match find(s, key_from, "Signature Information:"@) {
                                                None => Err(Fault::SignatureHeading),
                                                Some(key_to) => {
                                                    let (end, fields) = fields_from(
                                                        s,
                                                        key_to + "Signature Information:"@.len(),
                                                    );
                                                    Ok(
                                                        (
                                                            after_spaces(s, end),
                                                            PrintedView {
                                                                certificate_name: s.subrange(
                                                                    name_from,
                                                                    name_to,
                                                                ),
                                                                not_before,
                                                                not_after,
                                                                key_text: key_text(
                                                                    s,
                                                                    key_from,
                                                                    key_to,
                                                                ),
                                                                signature_information: fields,
                                                            },
                                                        ),
                                                    )
                                                },
                                            }
                                        },
                                    },
                                },
                            },
                        },
                    },
                },
            }
        },
    }
}

/// The seconds from the epoch to a date and time of day in UTC, as chrono
/// counts them; nothing for what chrono takes for no date or no time of
/// day.
pub uninterp spec fn utc_seconds(
    year: i32,
    month: u32,
    day: u32,
    hour: u32,
    minute: u32,
    second: u32,
) -> Option<i64>;

/// The bytes that a text in base64 stands for, standard alphabet and
/// padding, as the base64 crate decodes it; nothing for a text that it does
/// not accept.
pub uninterp spec fn base64_decoded(text: Seq<char>) -> Option<Seq<u8>>;

/// Why the base64 crate did not accept a text.
#[verifier::external_type_specification]
#[verifier::external_body]
pub struct ExDecodeError(base64::DecodeError);

/// Places a date and time of day on the time line with chrono's
/// `TimeZone::with_ymd_and_hms` for `Utc`, and gives the second it names as
/// `DateTime::timestamp` counts it. The result is the one that chrono gives
/// for these six numbers: there is none where chrono finds no such date or
/// time of day.
#[verifier::external_body]
fn utc_timestamp(year: i32, month: u32, day: u32, hour: u32, minute: u32, second: u32) -> (r:
    Option<i64>)
    ensures
        r == utc_seconds(year, month, day, hour, minute, second),
{
    match chrono::Utc.with_ymd_and_hms(year, month, day, hour, minute, second).single() {
        Some(instant) => Some(instant.timestamp()),
        None => None,
    }
}

/// Decodes a text with `base64::decode`. The result is the one that the
/// library gives for this text: its bytes, or a refusal. The library gives
/// up only on a text whose length, with three added, is beyond what can be
/// counted, and no text in memory is that long.
#[verifier::external_body]
fn decode_base64(text: &str) -> (r: Result<Vec<u8>, base64::DecodeError>)
    ensures
        match base64_decoded(text@) {
            Some(bytes) => r is Ok && r->Ok_0@ == bytes,
            None => r is Err,
        },
{
    base64::decode(text)
}

/// The instant of a date and time of day, given the second counted for it.
pub open spec fn instant_of(seconds: Option<i64>) -> Option<Time> {
    match seconds {
        Some(s) => Some(Time { nanos: (s * crate::time::NANOS_PER_SECOND) as i128 }),
        None => None,
    }
}

/// The details of a certificate, made of what its text holds, of the seconds
/// counted for the two ends of its validity, and of its decoded key; or the
/// first thing found wrong: the start of the validity, its end, the key.
pub open spec fn assembled(
    printed: PrintedView,
    not_before: Option<i64>,
    not_after: Option<i64>,
    key: Option<Seq<u8>>,
) -> Result<CertificateInfoView, Fault> {
    match (instant_of(not_before), instant_of(not_after), key) {
        (None, _, _) => Err(Fault::NotBeforeDate),
        (Some(_), None, _) => Err(Fault::NotAfterDate),
        (Some(_), Some(_), None) => Err(Fault::Key),
        (Some(from), Some(to), Some(bits)) => Ok(
            CertificateInfoView {
                certificate_name: printed.certificate_name,
                validity_not_before: from,
                validity_not_after: to,
                public_key_bits: bits,
                signature_information: keep_last(printed.signature_information),
            },
        ),
    }
}

/// The details that a text read from `i` holds of a certificate, and the
/// position behind them; or where the reading went wrong.
pub open spec fn certificate_info_at(s: Seq<char>, i: int) -> Result<
    (int, CertificateInfoView),
    Fault,
> {
    match printed_at(s, i) {
        Err(fault) => Err(fault),
        Ok((next, printed)) => {
            let from = printed.not_before;
            let to = printed.not_after;
            match assembled(
                printed,
                utc_seconds(from.year, from.month, from.day, from.hour, from.minute, from.second),
                utc_seconds(to.year, to.month, to.day, to.hour, to.minute, to.second),
                base64_decoded(printed.key_text),
            ) {
                Err(fault) => Err(fault),
                Ok(info) => Ok((next, info)),
            }
        },
    }
}

/// The same for a text that must hold nothing behind the certificate.
pub open spec fn certificate_info(s: Seq<char>) -> Result<CertificateInfoView, Fault> {
    match certificate_info_at(s, 0) {
        Err(fault) => Err(fault),
        Ok((next, info)) => if next == s.len() {
            Ok(info)
        } else {
            Err(Fault::Trailing)
        },
    }
}

/// Reads a heading behind the blanks from `i` on.
fn read_heading(s: &Vec<char>, i: usize, heading: &str) -> (r: Option<usize>)
    requires
        i <= s.len(),
    ensures
        match heading_at(s@, i as int, heading@) {
            None => r is None,
            Some(p) => r == Some(p as usize) && i <= p <= s.len(),
        },
{
    let pattern = chars_of(heading);
    let a = skip_spaces(s, i);
    if matches_at(s, a, &pattern) {
        Some(a + pattern.len())
    } else {
        None
    }
}

/// Reads the digits from `from` up to `to`.
fn read_digits(s: &Vec<char>, from: usize, to: usize) -> (r: Option<u32>)
    requires
        from <= to <= s.len(),
        to - from <= 4,
    ensures
        all_digits(s@.subrange(from as int, to as int)) ==> r is Some && r->Some_0 == digits_value(
            s@.subrange(from as int, to as int),
        ),
        !all_digits(s@.subrange(from as int, to as int)) ==> r is None,
        r is Some ==> r->Some_0 <= 9999,
{
    let ghost digits = s@.subrange(from as int, to as int);
    let mut value: u32 = 0;
    let mut i: usize = from;
    assert(digits.take(0) =~= Seq::empty());
    while i < to
        invariant
            from <= i <= to <= s.len(),
            to - from <= 4,
            digits == s@.subrange(from as int, to as int),
            all_digits(digits.take(i - from)),
            value == digits_value(digits.take(i - from)),
            i - from == 0 ==> value == 0,
            i - from == 1 ==> value <= 9,
            i - from == 2 ==> value <= 99,
            i - from == 3 ==> value <= 999,
            i - from == 4 ==> value <= 9999,
        decreases to - i,
    {
        let c = s[i];
        assert(digits[i - from] == c);
        if !(c >= '0' && c <= '9') {
            return None;
        }
        let digit: u32 = c as u32 - '0' as u32;
        proof {
            let longer = digits.take(i - from + 1);
            assert(longer.drop_last() =~= digits.take(i - from));
            assert(longer.last() == c);
            assert forall|j: int| 0 <= j < longer.len() implies is_digit(#[trigger] longer[j]) by {
                if j < i - from {
                    assert(digits.take(i - from)[j] == longer[j]);
                }
            }
        }
        value = value * 10 + digit;
        i += 1;
    }
    assert(digits.take(to - from) =~= digits);
    Some(value)
}

/// Reads a number from `from` up to `to`.
fn read_number(s: &Vec<char>, from: usize, to: usize, signed: bool) -> (r: Option<i32>)
    requires
        from <= to <= s.len(),
        to - from <= 4,
    ensures
        match number(s@.subrange(from as int, to as int), signed) {
            None => r is None,
            Some(value) => r == Some(value as i32) && -9999 <= value <= 9999,
        },
{
    let ghost text = s@.subrange(from as int, to as int);
    if from == to {
        return None;
    }
    let first = s[from];
    assert(text[0] == first);
    if first == '+' || (signed && first == '-') {
        assert(text.drop_first() =~= s@.subrange(from + 1, to as int));
        if from + 1 == to {
            return None;
        }
        match read_digits(s, from + 1, to) {
            None => None,
            Some(value) => if first == '-' {
                Some(-(value as i32))
            } else {
                Some(value as i32)
            },
        }
    } else {
        match read_digits(s, from, to) {
            None => None,
            Some(value) => Some(value as i32),
        }
    }
}

/// Reads a number that has no sign to lose.
fn read_count(s: &Vec<char>, from: usize, to: usize) -> (r: Option<u32>)
    requires
        from <= to <= s.len(),
        to - from <= 4,
    ensures
        match number(s@.subrange(from as int, to as int), false) {
            None => r is None,
            Some(value) => r == Some(value as u32) && 0 <= value <= 9999,
        },
{
    match read_number(s, from, to, false) {
        None => None,
        Some(value) => {
            proof {
                let text = s@.subrange(from as int, to as int);
                if text[0] == '+' {
                    lemma_digits_value_not_negative(text.drop_first());
                } else {
                    lemma_digits_value_not_negative(text);
                }
            }
            Some(value as u32)
        },
    }
}

/// A text of digits stands for no negative number.
proof fn lemma_digits_value_not_negative(s: Seq<char>)
    requires
        all_digits(s),
    ensures
        digits_value(s) >= 0,
    decreases s.len(),
{
    if s.len() > 0 {
        assert forall|i: int| 0 <= i < s.drop_last().len() implies is_digit(
            #[trigger] s.drop_last()[i],
        ) by {
            assert(s.drop_last()[i] == s[i]);
        }
        lemma_digits_value_not_negative(s.drop_last());
        assert(is_digit(s[s.len() - 1]));
    }
}

/// Reads a date and time of day behind the blanks from `i` on.
fn read_civil_time(s: &Vec<char>, i: usize) -> (r: Option<(usize, CivilTime)>)
    requires
        i <= s.len(),
    ensures
        match civil_time_at(s@, i as int) {
            None => r is None,
            Some((next, civil)) => r == Some((next as usize, civil)) && i <= next <= s.len(),
        },
{
    let a = skip_spaces(s, i);
    if s.len() - a < 15 {
        return None;
    }
    if s[a + 8] != 'T' {
        return None;
    }
    let year = read_number(s, a, a + 4, true);
    let month = read_count(s, a + 4, a + 6);
    let day = read_count(s, a + 6, a + 8);
    let hour = read_count(s, a + 9, a + 11);
    let minute = read_count(s, a + 11, a + 13);
    let second = read_count(s, a + 13, a + 15);
    match (year, month, day, hour, minute, second) {
        (Some(year), Some(month), Some(day), Some(hour), Some(minute), Some(second)) => Some(
            (a + 15, CivilTime { year, month, day, hour, minute, second }),
        ),
        _ => None,
    }
}

/// Tells whether the character is white space.
fn white(c: char) -> (r: bool)
    ensures
        r == is_whitespace(c),
{
    (c >= '\u{9}' && c <= '\u{d}') || c == ' ' || c == '\u{85}' || c == '\u{a0}' || c
        == '\u{1680}' || (c >= '\u{2000}' && c <= '\u{200a}') || c == '\u{2028}' || c
        == '\u{2029}' || c == '\u{202f}' || c == '\u{205f}' || c == '\u{3000}'
}

/// Makes the key printed between `from` and `to` ready for decoding.
fn read_key_text(text: &str, s: &Vec<char>, from: usize, to: usize) -> (r: String)
    requires
        text@ == s@,
        from <= to <= s.len(),
    ensures
        r@ == key_text(s@, from as int, to as int),
{
    let mut start: usize = from;
    while start < to && white(s[start])
        invariant
            from <= start <= to <= s.len(),
            trim_start(s@, from as int, to as int) == trim_start(s@, start as int, to as int),
        decreases to - start,
    {
        start += 1;
    }
    let mut end: usize = to;
    while start < end && white(s[end - 1])
        invariant
            start <= end <= to <= s.len(),
            trim_end(s@, start as int, to as int) == trim_end(s@, start as int, end as int),
        decreases end - start,
    {
        end -= 1;
    }
    let ghost inner = s@.subrange(start as int, end as int);
    let mut kept = String::new();
    let mut i: usize = start;
    assert(inner.take(0) =~= Seq::empty());
    while i < end
        invariant
            start <= i <= end <= s.len(),
            text@ == s@,
            inner == s@.subrange(start as int, end as int),
            kept@ == without_breaks(inner.take(i - start)),
        decreases end - i,
    {
        let c = s[i];
        proof {
            let longer = inner.take(i - start + 1);
            assert(longer.drop_last() =~= inner.take(i - start));
            assert(longer.last() == c);
        }
        if !(c == ' ' || c == '\n' || c == '\r') {
            let ghost before = kept@;
            let one = text.substring_char(i, i + 1);
            assert(one@ =~= seq![c]);
            kept.append(one);
            assert(kept@ =~= before.push(c));
        }
        i += 1;
    }
    assert(inner.take(end - start) =~= inner);
    kept
}

/// Reads a field of the signature information.
fn read_field(text: &str, s: &Vec<char>, i: usize) -> (r: Option<(usize, (String, String))>)
    requires
        text@ == s@,
        i <= s.len(),
    ensures
        match field_at(s@, i as int) {
            None => r is None,
            Some((next, field)) => r is Some && r->Some_0.0 == next && r->Some_0.1.0@ == field.0
                && r->Some_0.1.1@ == field.1 && i < next <= s.len(),
        },
{
    let mut colon: Vec<char> = Vec::new();
    colon.push(':');
    assert(colon@ =~= seq![':']);
    let mut line_feed: Vec<char> = Vec::new();
    line_feed.push('\n');
    assert(line_feed@ =~= seq!['\n']);
    let a = skip_spaces(s, i);
    let colon_at = match find_from(s, a, &colon) {
        None => {
            return None;
        },
        Some(p) => p,
    };
    let b = skip_spaces(s, colon_at + 1);
    let end = match find_from(s, b, &line_feed) {
        None => {
            return None;
        },
        Some(p) => p,
    };
    Some((end + 1, (slice_string(text, a, colon_at), slice_string(text, b, end))))
}

/// Reads the fields of the signature information from `i` on.
fn read_fields(text: &str, s: &Vec<char>, i: usize) -> (r: (usize, Vec<(String, String)>))
    requires
        text@ == s@,
        i <= s.len(),
    ensures
        r.0 == fields_from(s@, i as int).0,
        named_view(r.1@) == fields_from(s@, i as int).1,
        i <= r.0 <= s.len(),
{
    let mut fields: Vec<(String, String)> = Vec::new();
    let mut at: usize = i;
    assert(named_view(fields@) =~= Seq::empty());
    loop
        invariant
            i <= at <= s.len(),
            text@ == s@,
            fields_from(s@, i as int).0 == fields_from(s@, at as int).0,
            fields_from(s@, i as int).1 == named_view(fields@) + fields_from(s@, at as int).1,
        decreases s.len() - at,
    {
        match read_field(text, s, at) {
            None => {
                assert(named_view(fields@) + Seq::<(Seq<char>, Seq<char>)>::empty() =~= named_view(
                    fields@,
                ));
                return (at, fields);
            },
            Some((next, field)) => {
                let ghost before = named_view(fields@);
                let ghost rest = fields_from(s@, next as int).1;
                let ghost entry = (field.0@, field.1@);
                fields.push(field);
                assert(named_view(fields@) =~= before + seq![entry]);
                assert(before + (seq![entry] + rest) =~= named_view(fields@) + rest);
                at = next;
            },
        }
    }
}

impl Printed {
    /// Reads what the text holds of a certificate, from position `i` on.
    pub(crate) fn parse_at(text: &str, s: &Vec<char>, i: usize) -> (r: Result<
        (usize, Printed),
        Fault,
    >)
        requires
            text@ == s@,
            i <= s.len(),
        ensures
            match printed_at(s@, i as int) {
                Err(fault) => r == Err::<(usize, Printed), Fault>(fault),
                Ok((next, printed)) => r is Ok && r->Ok_0.0 == next && r->Ok_0.1@ == printed && i
                    <= next <= s.len(),
            },
    {
        let mut line_feed: Vec<char> = Vec::new();
        line_feed.push('\n');
        assert(line_feed@ =~= seq!['\n']);
        let p = match read_heading(s, i, "Certificate name:") {
            None => {
                return Err(Fault::NameHeading);
            },
            Some(p) => p,
        };
        let name_from = skip_spaces(s, p);
        let name_to = match find_from(s, name_from, &line_feed) {
            None => {
                return Err(Fault::Name);
            },
            Some(p) => p,
        };
        let p = match read_heading(s, name_to, "Validity:") {
            None => {
                return Err(Fault::ValidityHeading);
            },
            Some(p) => p,
        };
        let p = match read_heading(s, p, "NotBefore: ") {
            None => {
                return Err(Fault::NotBeforeLabel);
            },
            Some(p) => p,
        };
        let (p, not_before) = match read_civil_time(s, p) {
            None => {
                return Err(Fault::NotBefore);
            },
            Some(found) => found,
        };
        let p = match read_heading(s, p, "NotAfter: ") {
            None => {
                return Err(Fault::NotAfterLabel);
            },
            Some(p) => p,
        };
        let (p, not_after) = match read_civil_time(s, p) {
            None => {
                return Err(Fault::NotAfter);
            },
            Some(found) => found,
        };
        let p = match read_heading(s, p, "Public key bits:") {
            None => {
                return Err(Fault::KeyHeading);
            },
            Some(p) => p,
        };
        let key_from = skip_spaces(s, p);
        let heading = chars_of("Signature Information:");
        let key_to = match find_from(s, key_from, &heading) {
            None => {
                return Err(Fault::SignatureHeading);
            },
            Some(p) => p,
        };
        let (end, signature_information) = read_fields(text, s, key_to + heading.len());
        let next = skip_spaces(s, end);
        Ok(
            (
                next,
                Printed {
                    certificate_name: slice_string(text, name_from, name_to),
                    not_before,
                    not_after,
                    key_text: read_key_text(text, s, key_from, key_to),
                    signature_information,
                },
            ),
        )
    }

    /// Reads what `input` holds of a certificate. Gives what of the input
    /// lies behind it, too.
    pub fn parse(input: &str) -> (r: Result<(String, Printed), Fault>)
        ensures
            match printed_at(input@, 0) {
                Err(fault) => r == Err::<(String, Printed), Fault>(fault),
                Ok((next, printed)) => r is Ok && r->Ok_0.0@ == input@.subrange(
                    next,
                    input@.len() as int,
                ) && r->Ok_0.1@ == printed && 0 <= next <= input@.len(),
            },
    {
        let chars = chars_of(input);
        match Printed::parse_at(input, &chars, 0) {
            Err(fault) => Err(fault),
            Ok((next, printed)) => Ok((slice_string(input, next, chars.len()), printed)),
        }
    }
}

impl CertificateInfo {
    /// Makes the details of a certificate of what its text holds, of the
    /// seconds from the epoch to the two ends of its validity, and of its
    /// decoded key. Where one of these is missing there are no details: the
    /// fault names the first that is.
    pub fn assemble(
        printed: Printed,
        not_before: Option<i64>,
        not_after: Option<i64>,
        key: Option<Vec<u8>>,
    ) -> (r: Result<CertificateInfo, Fault>)
        ensures
            match assembled(printed@, not_before, not_after, key.deep_view()) {
                Err(fault) => r == Err::<CertificateInfo, Fault>(fault),
                Ok(info) => r is Ok && r->Ok_0@ == info,
            },
    {
        let from = match not_before {
            None => {
                return Err(Fault::NotBeforeDate);
            },
            Some(seconds) => Time::from_parts(seconds, 0),
        };
        let to = match not_after {
            None => {
                return Err(Fault::NotAfterDate);
            },
            Some(seconds) => Time::from_parts(seconds, 0),
        };
        let bits = match key {
            None => {
                return Err(Fault::Key);
            },
            Some(bits) => bits,
        };
        assert(bits.deep_view() =~= bits@);
        Ok(
            CertificateInfo {
                certificate_name: printed.certificate_name,
                validity_not_before: from,
                validity_not_after: to,
                public_key_bits: bits,
                signature_information: keep_last_by_name(&printed.signature_information),
            },
        )
    }

    /// Makes the details of a certificate of what its text holds: places the
    /// two ends of the validity on the time line, and decodes the key.
    pub fn complete(printed: Printed) -> (r: Result<CertificateInfo, Fault>)
        ensures
            match assembled(
                printed@,
                utc_seconds(
                    printed.not_before.year,
                    printed.not_before.month,
                    printed.not_before.day,
                    printed.not_before.hour,
                    printed.not_before.minute,
                    printed.not_before.second,
                ),
                utc_seconds(
                    printed.not_after.year,
                    printed.not_after.month,
                    printed.not_after.day,
                    printed.not_after.hour,
                    printed.not_after.minute,
                    printed.not_after.second,
                ),
                base64_decoded(printed.key_text@),
            ) {
                Err(fault) => r == Err::<CertificateInfo, Fault>(fault),
                Ok(info) => r is Ok && r->Ok_0@ == info,
            },
    {
        let from = printed.not_before;
        let to = printed.not_after;
        let not_before = utc_timestamp(
            from.year,
            from.month,
            from.day,
            from.hour,
            from.minute,
            from.second,
        );
        let not_after = utc_timestamp(to.year, to.month, to.day, to.hour, to.minute, to.second);
        let key = match decode_base64(printed.key_text.as_str()) {
            Ok(bits) => Some(bits),
            Err(_) => None,
        };
        assert(key.deep_view() =~= base64_decoded(printed.key_text@)) by {
            if key is Some {
                assert(key->Some_0.deep_view() =~= key->Some_0@);
            }
        }
        CertificateInfo::assemble(printed, not_before, not_after, key)
    }

    /// Reads the details of a certificate from the start of `input`. Gives
    /// what of the input lies behind them, too.
    pub fn parse(input: &str) -> (r: Result<(String, CertificateInfo), Error>)
        ensures
            match certificate_info_at(input@, 0) {
                Err(fault) => r is Err && r->Err_0@ == ErrorView::ParsingError(fault.text()),
                Ok((next, info)) => r is Ok && r->Ok_0.0@ == input@.subrange(
                    next,
                    input@.len() as int,
                ) && r->Ok_0.1@ == info && 0 <= next <= input@.len(),
            },
    {
        match Printed::parse(input) {
            Err(fault) => Err(fault.error()),
            Ok((rest, printed)) => match CertificateInfo::complete(printed) {
                Err(fault) => Err(fault.error()),
                Ok(info) => Ok((rest, info)),
            },
        }
    }

    /// Reads the details of a certificate from `input`, which must hold
    /// nothing behind them.
    pub fn from_str(input: &str) -> (r: Result<CertificateInfo, Error>)
        ensures
            match certificate_info(input@) {
                Err(fault) => r is Err && r->Err_0@ == ErrorView::ParsingError(fault.text()),
                Ok(info) => r is Ok && r->Ok_0@ == info,
            },
    {
        match CertificateInfo::parse(input) {
            Err(e) => Err(e),
            Ok((rest, info)) => {
                let left = chars_of(rest.as_str());
                if left.len() == 0 {
                    Ok(info)
                } else {
                    Err(Fault::Trailing.error())
                }
            },
        }
    }
}

} // verus!
