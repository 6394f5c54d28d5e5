//! The normalized transaction record that flows from ingestion to the API.

use vstd::prelude::*;
use crate::text::{decimal, decimal_value, is_decimal_text, lemma_decimal_roundtrip, parse_u128, parse_u128_spec, push_signed_decimal, signed_decimal};

verus! {

/// A blockchain transaction, normalized: hash and addresses as text, the
/// transferred value as decimal text in wei, and the block's Unix timestamp.
pub struct Transaction {
    pub hash: String,
    pub from: String,
    pub to: Option<String>,
    pub amount_wei: String,
    pub timestamp: i64,
}

/// The `{:?}` text of a string: the string between double quotes, with
/// quotes, backslashes and non-printable characters escaped.
pub uninterp spec fn debug_text(s: Seq<char>) -> Seq<char>;

/// Whether every character of `s` is printable ASCII (space to `~`) other
/// than a double quote, a backslash or a single quote: characters that the
/// `{:?}` text of a string copies unchanged.
pub open spec fn plain_ascii(s: Seq<char>) -> bool {
    forall|i: int| 0 <= i < s.len() ==> {
        &&& ' ' <= #[trigger] s[i] && s[i] <= '~'
        &&& s[i] != '"' && s[i] != '\\' && s[i] != '\''
    }
}

/// `format!("{:?}", s)` on a `&str`. Trusted: the result is `debug_text` of
/// the characters of `s`, and for plain ASCII text (see `plain_ascii`) it is
/// the text between double quotes, as std documents for `str`'s `Debug`;
/// what `debug_text` is on other characters (std's escaping rules) is not
/// stated.
#[verifier::external_body]
fn debug_string(s: &str) -> (r: String)
    ensures
        r@ == debug_text(s@),
        plain_ascii(s@) ==> r@ == seq!['"'] + s@ + seq!['"'],
{
    format!("{:?}", s)
}

/// The `{:?}` text of an optional string, as `Option<String>`'s derived
/// `Debug` writes it: `None`, or `Some(` the string's debug text `)`.
pub open spec fn debug_option_text(o: Option<Seq<char>>) -> Seq<char> {
    match o {
        None => "None"@,
        Some(s) => "Some("@ + debug_text(s) + ")"@,
    }
}

/// The one-line summary of a transaction.
pub open spec fn summary_text(
    hash: Seq<char>,
    from: Seq<char>,
    to: Option<Seq<char>>,
    amount_wei: Seq<char>,
    timestamp: i64,
) -> Seq<char> {
    "Transaction "@ + hash + ": "@ + from + " sent "@ + amount_wei + " ETH to "@
        + debug_option_text(to) + " on "@ + signed_decimal(timestamp as int)
}

/// The characters of an optional string.
pub open spec fn option_view(o: Option<String>) -> Option<Seq<char>> {
    match o {
        None => None,
        Some(s) => Some(s@),
    }
}

impl Transaction {
    /// Builds a transaction from its parts.
    pub fn new(hash: String, from: String, to: Option<String>, amount_wei: String, timestamp: i64) -> (r: Self)
        ensures
            r.hash == hash,
            r.from == from,
            r.to == to,
            r.amount_wei == amount_wei,
            r.timestamp == timestamp,
    {
        Self { hash, from, to, amount_wei, timestamp }
    }

    /// The transferred value, when `amount_wei` is decimal text of a value that
    /// fits 128 bits.
    pub open spec fn amount_spec(&self) -> Option<u128> {
        parse_u128_spec(self.amount_wei@)
    }

    /// The transferred value as a number (see `amount_spec`).
    pub fn amount(&self) -> (r: Option<u128>)
        ensures
            r == self.amount_spec(),
    {
        parse_u128(self.amount_wei.as_str())
    }

    /// `Transaction {hash}: {from} sent {amount_wei} ETH to {to:?} on {timestamp}`.
    pub fn summary(&self) -> (r: String)
        ensures
            r@ == summary_text(self.hash@, self.from@, option_view(self.to), self.amount_wei@, self.timestamp),
            match self.to {
                Some(t) => plain_ascii(t@) ==> debug_text(t@) == seq!['"'] + t@ + seq!['"'],
                None => true,
            },
    {
        let mut s = String::new();
        s.append("Transaction ");
        s.append(self.hash.as_str());
        s.append(": ");
        s.append(self.from.as_str());
        s.append(" sent ");
        s.append(self.amount_wei.as_str());
        s.append(" ETH to ");
        match &self.to {
            None => {
                s.append("None");
            },
            Some(t) => {
                s.append("Some(");
                let d = debug_string(t.as_str());
                s.append(d.as_str());
                s.append(")");
            },
        }
        s.append(" on ");
        push_signed_decimal(&mut s, self.timestamp);
        assert(s@ =~= summary_text(self.hash@, self.from@, option_view(self.to), self.amount_wei@, self.timestamp));
        s
    }
}

impl Clone for Transaction {
    fn clone(&self) -> (r: Self)
        ensures
            r == *self,
    {
        let to = match &self.to {
            None => None,
            Some(t) => Some(t.clone()),
        };
        Transaction {
            hash: self.hash.clone(),
            from: self.from.clone(),
            to,
            amount_wei: self.amount_wei.clone(),
            timestamp: self.timestamp,
        }
    }
}

/// The summary line carries each field unchanged in its place: the hash and
/// sender after `Transaction `, the amount text exactly as given between
/// ` sent ` and ` ETH to `, then `None` or `Some(` the recipient's debug text
/// `)`, and after ` on ` the timestamp's decimal text, which reads back as
/// the timestamp (with a leading `-` when it is negative).
pub proof fn lemma_summary_parts(
    hash: Seq<char>,
    from: Seq<char>,
    to: Option<Seq<char>>,
    amount_wei: Seq<char>,
    timestamp: i64,
)
    ensures
        exists|recipient: Seq<char>, stamp: Seq<char>| {
            &&& summary_text(hash, from, to, amount_wei, timestamp) == "Transaction "@ + hash + ": "@ + from
                + " sent "@ + amount_wei + " ETH to "@ + recipient + " on "@ + stamp
            &&& match to {
                None => recipient == "None"@,
                Some(t) => recipient == "Some("@ + debug_text(t) + ")"@,
            }
            &&& timestamp >= 0 ==> is_decimal_text(stamp) && decimal_value(stamp) == timestamp
            &&& timestamp < 0 ==> {
                &&& stamp.len() > 0
                &&& stamp[0] == '-'
                &&& is_decimal_text(stamp.drop_first())
                &&& decimal_value(stamp.drop_first()) == -timestamp
            }
        },
{
    let recipient = debug_option_text(to);
    let stamp = signed_decimal(timestamp as int);
    if timestamp >= 0 {
        lemma_decimal_roundtrip(timestamp as nat);
    } else {
        lemma_decimal_roundtrip((-timestamp) as nat);
        assert(stamp.drop_first() =~= decimal((-timestamp) as nat));
    }
    assert(summary_text(hash, from, to, amount_wei, timestamp) == "Transaction "@ + hash + ": "@ + from
        + " sent "@ + amount_wei + " ETH to "@ + recipient + " on "@ + stamp);
}

} // verus!
