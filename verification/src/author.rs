//! The account that is rewarded for a mined block, as the command line names
//! it.
use crate::uint::H256;
use vstd::prelude::*;
use vstd::string::StringSliceAdditionalSpecFns;

verus! {

/// Why an author is not understood.
#[derive(Clone, Copy, Debug, PartialEq, Eq)]
pub enum AuthorError {
    /// The author starts with `0x` but what follows is not the 64 hex digits
    /// of an account.
    InvalidAccount,
    /// The author is an address that names no account. Only the host, which
    /// reads addresses, finds this out.
    InvalidAddress,
}

/// Who is rewarded, as far as the text on the command line tells.
#[derive(Clone, Copy, Debug, PartialEq, Eq)]
pub enum Author {
    /// The account that was given in hex.
    Account(H256),
    /// The text is no hex account: it is an address, which the host reads.
    Address,
    /// No author was given: the host makes a key and rewards that.
    Fresh,
}

/// What an `Author` holds, as plain values.
pub ghost enum AuthorView {
    Account(Seq<u8>),
    Address,
    Fresh,
}

impl View for Author {
    type V = AuthorView;

    open spec fn view(&self) -> AuthorView {
        match *self {
            Author::Account(account) => AuthorView::Account(account@),
            Author::Address => AuthorView::Address,
            Author::Fresh => AuthorView::Fresh,
        }
    }
}

impl AuthorError {
    /// The error in words.
    pub fn message(&self) -> (r: String)
        ensures
            r@ == match *self {
                AuthorError::InvalidAccount => "Invalid author account"@,
                AuthorError::InvalidAddress => "Invalid author address"@,
            },
    {
        match self {
            AuthorError::InvalidAccount => "Invalid author account".to_owned(),
            AuthorError::InvalidAddress => "Invalid author address".to_owned(),
        }
    }
}

/// The value of a hex digit, in either case.
pub open spec fn spec_hex_value(digit: u8) -> Option<u8> {
    if 0x30 <= digit <= 0x39 {
        Some((digit - 0x30) as u8)
    } else if 0x61 <= digit <= 0x66 {
        Some((digit - 0x61 + 10) as u8)
    } else if 0x41 <= digit <= 0x46 {
        Some((digit - 0x41 + 10) as u8)
    } else {
        None
    }
}

/// The bytes that a string of hex digits stands for, two digits to a byte:
/// none for an odd number of digits or for anything that is not a hex digit.
pub open spec fn spec_hex_bytes(text: Seq<u8>) -> Option<Seq<u8>>
    decreases text.len(),
{
    if text.len() == 0 {
        Some(Seq::<u8>::empty())
    } else if text.len() == 1 {
        None
    } else {
        match (spec_hex_value(text[0]), spec_hex_value(text[1]), spec_hex_bytes(text.skip(2))) {
            (Some(high), Some(low), Some(rest)) => Some(seq![(high * 16 + low) as u8] + rest),
            _ => None,
        }
    }
}

/// Who `author` names: the account of the 32 bytes behind `0x`, an address
/// where the text does not start with `0x`, and a fresh key where there is no
/// text.
pub open spec fn spec_decode_author(author: Option<Seq<u8>>) -> Result<AuthorView, AuthorError> {
    match author {
        Some(text) => if text.len() >= 2 && text[0] == 0x30 && text[1] == 0x78 {
            match spec_hex_bytes(text.skip(2)) {
                Some(bytes) => if bytes.len() == 32 {
                    Ok(AuthorView::Account(bytes))
                } else {
                    Err(AuthorError::InvalidAccount)
                },
                None => Err(AuthorError::InvalidAccount),
            }
        } else {
            Ok(AuthorView::Address)
        },
        None => Ok(AuthorView::Fresh),
    }
}

/// The bytes of the text of an author, where there is one.
pub open spec fn spec_author_text(author: Option<&str>) -> Option<Seq<u8>> {
    match author {
        Some(text) => Some(text.spec_bytes()),
        None => None,
    }
}

/// The value of a hex digit.
fn hex_value(digit: u8) -> (r: Option<u8>)
    ensures
        r == spec_hex_value(digit),
{
    if 0x30 <= digit && digit <= 0x39 {
        Some(digit - 0x30)
    } else if 0x61 <= digit && digit <= 0x66 {
        Some(digit - 0x61 + 10)
    } else if 0x41 <= digit && digit <= 0x46 {
        Some(digit - 0x41 + 10)
    } else {
        None
    }
}

/// The bytes that the hex digits of `text` from `start` on stand for.
pub fn from_hex(text: &[u8], start: usize) -> (r: Option<Vec<u8>>)
    requires
        start <= text.len(),
    ensures
        r.is_some() == spec_hex_bytes(text@.skip(start as int)).is_some(),
        r matches Some(bytes) ==> spec_hex_bytes(text@.skip(start as int)) == Some(bytes@),
{
    let mut out: Vec<u8> = Vec::new();
    let mut at: usize = start;
    let ghost whole = spec_hex_bytes(text@.skip(start as int));
    proof {
        if whole.is_some() {
            assert(Seq::<u8>::empty() + whole->0 =~= whole->0);
        }
    }
    while at < text.len()
        invariant
            start <= at <= text.len(),
            whole == spec_hex_bytes(text@.skip(start as int)),
            whole == match spec_hex_bytes(text@.skip(at as int)) {
                Some(rest) => Some(out@ + rest),
                None => None,
            },
        decreases text.len() - at,
    {
        let ghost left = text@.skip(at as int);
        if text.len() - at < 2 {
            return None;
        }
        assert(left[0] == text@[at as int] && left[1] == text@[at + 1]);
        assert(left.skip(2) =~= text@.skip(at + 2));
        let high = match hex_value(text[at]) {
            Some(high) => high,
            None => {
                return None;
            },
        };
        let low = match hex_value(text[at + 1]) {
            Some(low) => low,
            None => {
                return None;
            },
        };
        let byte: u8 = high * 16 + low;
        proof {
            let rest = spec_hex_bytes(text@.skip(at + 2));
            if rest.is_some() {
                assert(out@ + (seq![byte] + rest->0) =~= out@.push(byte) + rest->0);
            }
        }
        out.push(byte);
        at = at + 2;
    }
    proof {
        assert(text@.skip(at as int) =~= Seq::<u8>::empty());
        assert(out@ + Seq::<u8>::empty() =~= out@);
    }
    Some(out)
}

/// Who `author` names. An author that starts with `0x` is an account, and
/// is refused unless the 64 hex digits of the account follow. Any other text
/// is an address, left for the host to read: addresses are the host's
/// format. Without an author the host makes a key.
pub fn decode_author(author: Option<&str>) -> (r: Result<Author, AuthorError>)
    ensures
        match r {
            Ok(who) => spec_decode_author(spec_author_text(author)) == Ok::<
                AuthorView,
                AuthorError,
            >(who@),
            Err(error) => spec_decode_author(spec_author_text(author)) == Err::<
                AuthorView,
                AuthorError,
            >(error),
        },
{
    let author = match author {
        Some(author) => author,
        None => {
            return Ok(Author::Fresh);
        },
    };
    let text = author.as_bytes();
    if text.len() < 2 || text[0] != 0x30 || text[1] != 0x78 {
        return Ok(Author::Address);
    }
    match from_hex(text, 2) {
        Some(bytes) => {
            if bytes.len() != 32 {
                return Err(AuthorError::InvalidAccount);
            }
            proof {
                crate::digits::lemma_le_value_fit_longer(bytes@, 32);
                assert(crate::digits::fit(bytes@, 32) =~= bytes@);
            }
            Ok(Author::Account(H256::from_slice(bytes.as_slice())))
        },
        None => Err(AuthorError::InvalidAccount),
    }
}

} // verus!
