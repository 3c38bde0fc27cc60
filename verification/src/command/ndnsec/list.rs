//! The certificate inventory, and the text that lists it.
//!
//! The tool prints one block for each identity: the identity, with a star
//! before it where it is the default; under it the key, behind an arrow; and
//! under that the certificate, behind an arrow as well:
//!
//! ```text
//! * /test
//!   +->* /test/KEY/%A8C%0C%13
//!        +->* /test/KEY/%A8C%0C%13/self/%FD%00
//! ```

use vstd::prelude::*;
use vstd::string::StringExecFns;
use crate::command::text::{
    after_spaces, chars_of, find, find_from, matches_at, run_end, scan_run, skip_spaces,
    slice_string, stands_at,
};
use crate::command::Error;

verus! {

/// Every certificate the tool lists.
#[derive(Debug, Clone, PartialEq, Eq)]
pub struct CertificateList {
    pub certificates: Vec<Certificate>,
}

/// One identity with its key and certificate names.
#[derive(Debug, Clone, PartialEq, Eq)]
pub struct Certificate {
    pub is_default: bool,
    pub identity: String,
    pub key: String,
    pub certificate: String,
}

/// A certificate, its names taken by their characters.
pub struct CertificateView {
    pub is_default: bool,
    pub identity: Seq<char>,
    pub key: Seq<char>,
    pub certificate: Seq<char>,
}

impl View for Certificate {
    type V = CertificateView;

    open spec fn view(&self) -> CertificateView {
        CertificateView {
            is_default: self.is_default,
            identity: self.identity@,
            key: self.key@,
            certificate: self.certificate@,
        }
    }
}

impl DeepView for Certificate {
    type V = CertificateView;

    open spec fn deep_view(&self) -> CertificateView {
        self.view()
    }
}

/// The arrow that stands before a key and before a certificate.
pub open spec fn arrow() -> Seq<char> {
    seq!['+', '-', '>', '*']
}

/// A name behind an arrow, read from `i`: blanks, the arrow, blanks, and then
/// the name, which runs to the end of its line and is not empty. Gives the
/// position behind the name, and the name.
pub open spec fn arrow_item(s: Seq<char>, i: int) -> Option<(int, Seq<char>)> {
    let a = after_spaces(s, i);
    if !stands_at(s, a, arrow()) {
        None
    } else {
        let from = after_spaces(s, a + 4);
        let to = run_end(s, from, '\n');
        if to == from {
            None
        } else {
            Some((to, s.subrange(from, to)))
        }
    }
}

/// A block read from `i`: blanks and, where a star follows them, the star;
/// whatever stands before the first slash; the identity, from that slash to
/// the end of its line, which must end in a line feed; the key and the
/// certificate, each behind its arrow; and the blanks behind them. Gives the
/// position behind the block, and the certificate.
pub open spec fn certificate_at(s: Seq<char>, i: int) -> Option<(int, CertificateView)> {
    let a = after_spaces(s, i);
    let starred = stands_at(s, a, seq!['*']);
    let b = if starred {
        a + 1
    } else {
        a
    };
    match find(s, b, seq!['/']) {
        None => None,
        Some(slash) => match find(s, slash, seq!['\n']) {
            None => None,
            Some(end) => match arrow_item(s, end) {
                None => None,
                Some((behind_key, key)) => match arrow_item(s, behind_key) {
                    None => None,
                    Some((behind_certificate, certificate)) => Some(
                        (
                            after_spaces(s, behind_certificate),
                            CertificateView {
                                is_default: starred,
                                identity: s.subrange(slash, end),
                                key,
                                certificate,
                            },
                        ),
                    ),
                },
            },
        },
    }
}

/// The blocks read from `i` on, one after the other, up to the first
/// position at which no block can be read. Gives that position, and the
/// certificates in their order.
pub open spec fn certificates_from(s: Seq<char>, i: int) -> (int, Seq<CertificateView>)
    decreases s.len() - i,
{
    match certificate_at(s, i) {
        None => (i, Seq::empty()),
        Some((next, certificate)) => if i < next <= s.len() {
            let (end, rest) = certificates_from(s, next);
            (end, seq![certificate] + rest)
        } else {
            (i, Seq::empty())
        },
    }
}

/// The inventory that a text lists: the blocks that follow its leading
/// blanks. Gives the position up to which the text was read, too.
pub open spec fn inventory(s: Seq<char>) -> (int, Seq<CertificateView>) {
    certificates_from(s, after_spaces(s, 0))
}

/// Reads a name behind an arrow.
fn read_arrow_item(text: &str, s: &Vec<char>, i: usize) -> (r: Option<(usize, String)>)
    requires
        text@ == s@,
        i <= s.len(),
    ensures
        match arrow_item(s@, i as int) {
            None => r is None,
            Some((to, name)) => r is Some && r->Some_0.0 == to && r->Some_0.1@ == name && i < to
                <= s.len(),
        },
{
    let mut pattern: Vec<char> = Vec::new();
    pattern.push('+');
    pattern.push('-');
    pattern.push('>');
    pattern.push('*');
    assert(pattern@ =~= arrow());
    let a = skip_spaces(s, i);
    if !matches_at(s, a, &pattern) {
        return None;
    }
    let from = skip_spaces(s, a + 4);
    let to = scan_run(s, from, '\n');
    if to == from {
        return None;
    }
    Some((to, slice_string(text, from, to)))
}

impl Certificate {
    /// Reads a block of the listing from position `i` of the text.
    pub(crate) fn parse_at(text: &str, s: &Vec<char>, i: usize) -> (r: Option<
        (usize, Certificate),
    >)
        requires
            text@ == s@,
            i <= s.len(),
        ensures
            match certificate_at(s@, i as int) {
                None => r is None,
                Some((next, certificate)) => r is Some && r->Some_0.0 == next && r->Some_0.1@
                    == certificate && i < next <= s.len(),
            },
    {
        let mut star: Vec<char> = Vec::new();
        star.push('*');
        assert(star@ =~= seq!['*']);
        let mut slash: Vec<char> = Vec::new();
        slash.push('/');
        assert(slash@ =~= seq!['/']);
        let mut line_feed: Vec<char> = Vec::new();
        line_feed.push('\n');
        assert(line_feed@ =~= seq!['\n']);
        let a = skip_spaces(s, i);
        let starred = matches_at(s, a, &star);
        let b = if starred {
            a + 1
        } else {
            a
        };
        let slash_at = match find_from(s, b, &slash) {
            None => {
                return None;
            },
            Some(p) => p,
        };
        let end = match find_from(s, slash_at, &line_feed) {
            None => {
                return None;
            },
            Some(p) => p,
        };
        let (behind_key, key) = match read_arrow_item(text, s, end) {
            None => {
                return None;
            },
            Some(found) => found,
        };
        let (behind_certificate, certificate) = match read_arrow_item(text, s, behind_key) {
            None => {
                return None;
            },
            Some(found) => found,
        };
        let next = skip_spaces(s, behind_certificate);
        let identity = slice_string(text, slash_at, end);
        Some((next, Certificate { is_default: starred, identity, key, certificate }))
    }

    /// Reads a block of the listing from the start of `input`. Gives what of
    /// the input lies behind the block, and the certificate.
    pub fn parse(input: &str) -> (r: Result<(String, Certificate), Error>)
        ensures
            match certificate_at(input@, 0) {
                None => r is Err && r->Err_0@ == crate::command::ErrorView::ParsingError(
                    "no certificate block"@,
                ),
                Some((next, certificate)) => r is Ok && r->Ok_0.0@ == input@.subrange(
                    next,
                    input@.len() as int,
                ) && r->Ok_0.1@ == certificate,
            },
    {
        let chars = chars_of(input);
        match Certificate::parse_at(input, &chars, 0) {
            None => Err(Error::ParsingError(String::from_str("no certificate block"))),
            Some((next, certificate)) => Ok(
                (slice_string(input, next, chars.len()), certificate),
            ),
        }
    }
}

impl CertificateList {
    /// Reads the blocks of the listing from position `i` of the text on.
    pub(crate) fn parse_at(text: &str, s: &Vec<char>, i: usize) -> (r: (usize, CertificateList))
        requires
            text@ == s@,
            i <= s.len(),
        ensures
            r.0 == certificates_from(s@, i as int).0,
            r.1.certificates.deep_view() == certificates_from(s@, i as int).1,
            i <= r.0 <= s.len(),
    {
        let mut certificates: Vec<Certificate> = Vec::new();
        let mut at: usize = i;
        assert(certificates.deep_view() =~= Seq::empty());
        loop
            invariant
                i <= at <= s.len(),
                text@ == s@,
                certificates_from(s@, i as int).0 == certificates_from(s@, at as int).0,
                certificates_from(s@, i as int).1 == certificates.deep_view() + certificates_from(
                    s@,
                    at as int,
                ).1,
            decreases s.len() - at,
        {
            match Certificate::parse_at(text, s, at) {
                None => {
                    assert(certificates.deep_view() + Seq::<CertificateView>::empty()
                        =~= certificates.deep_view());
                    return (at, CertificateList { certificates });
                },
                Some((next, certificate)) => {
                    let ghost before = certificates.deep_view();
                    let ghost rest = certificates_from(s@, next as int).1;
                    certificates.push(certificate);
                    assert(certificates.deep_view() =~= before + seq![certificate@]);
                    assert(before + (seq![certificate@] + rest) =~= certificates.deep_view() + rest);
                    at = next;
                },
            }
        }
    }

    /// Reads the inventory that `input` lists, up to the first position at
    /// which no further block can be read. Gives what of the input lies
    /// behind that position, and the inventory.
    pub fn parse(input: &str) -> (r: (String, CertificateList))
        ensures
            0 <= inventory(input@).0 <= input@.len(),
            r.0@ == input@.subrange(inventory(input@).0, input@.len() as int),
            r.1.certificates.deep_view() == inventory(input@).1,
    {
        let chars = chars_of(input);
        let start = skip_spaces(&chars, 0);
        let (end, list) = CertificateList::parse_at(input, &chars, start);
        (slice_string(input, end, chars.len()), list)
    }

    /// Reads the inventory that `input` lists. The text must hold nothing
    /// but the listing: what cannot be read as a block is an error.
    pub fn from_str(input: &str) -> (r: Result<CertificateList, Error>)
        ensures
            inventory(input@).0 == input@.len() ==> r is Ok && r->Ok_0.certificates.deep_view()
                == inventory(input@).1,
            inventory(input@).0 != input@.len() ==> r is Err && r->Err_0@
                == crate::command::ErrorView::ParsingError(
                input@.subrange(inventory(input@).0, input@.len() as int),
            ),
    {
        let (rest, list) = CertificateList::parse(input);
        let chars = chars_of(rest.as_str());
        if chars.len() == 0 {
            Ok(list)
        } else {
            Err(Error::ParsingError(rest))
        }
    }
}

} // verus!
