use vstd::prelude::*;

use crate::amount::Amount;
use crate::errors::Error;
use crate::text::amount_text_value;
use crate::text::valid_amount_text;
use crate::ClientId;
use crate::TransactionId;

verus! {

/// The upper-case form of an ASCII lower-case letter; any other character
/// is its own upper-case form.
pub open spec fn upper(c: char) -> char {
    if c == 'a' {
        'A'
    } else if c == 'b' {
        'B'
    } else if c == 'c' {
        'C'
    } else if c == 'd' {
        'D'
    } else if c == 'e' {
        'E'
    } else if c == 'f' {
        'F'
    } else if c == 'g' {
        'G'
    } else if c == 'h' {
        'H'
    } else if c == 'i' {
        'I'
    } else if c == 'j' {
        'J'
    } else if c == 'k' {
        'K'
    } else if c == 'l' {
        'L'
    } else if c == 'm' {
        'M'
    } else if c == 'n' {
        'N'
    } else if c == 'o' {
        'O'
    } else if c == 'p' {
        'P'
    } else if c == 'q' {
        'Q'
    } else if c == 'r' {
        'R'
    } else if c == 's' {
        'S'
    } else if c == 't' {
        'T'
    } else if c == 'u' {
        'U'
    } else if c == 'v' {
        'V'
    } else if c == 'w' {
        'W'
    } else if c == 'x' {
        'X'
    } else if c == 'y' {
        'Y'
    } else if c == 'z' {
        'Z'
    } else {
        c
    }
}

/// Whether a character matches a lower-case tag character, ignoring case.
pub open spec fn matches_ci(c: char, l: char) -> bool {
    c == l || c == upper(l)
}

/// Case-insensitive equality of a text with a lower-case type tag.
pub open spec fn eq_tag(s: Seq<char>, t: Seq<char>) -> bool {
    s.len() == t.len() && forall|i: int| 0 <= i < s.len() ==> matches_ci(s[i], #[trigger] t[i])
}

/// A credit of funds to a client's account.
#[derive(Clone, Copy, Debug)]
pub struct Deposit {
    pub client_id: ClientId,
    pub transaction_id: TransactionId,
    pub amount: Amount,
}

/// A debit of funds from a client's account.
#[derive(Clone, Copy, Debug)]
pub struct Withdrawal {
    pub client_id: ClientId,
    pub transaction_id: TransactionId,
    pub amount: Amount,
}

/// A dispute of a deposit: a claim that the deposit identified by the
/// transaction id is contested, freezing its amount.
#[derive(Clone, Copy, Debug)]
pub struct Dispute {
    pub disputed_transaction: TransactionId,
}

/// A resolution of a dispute, returning the frozen funds to available.
#[derive(Clone, Copy, Debug)]
pub struct Resolve {
    pub disputed_transaction: TransactionId,
}

/// A chargeback of a disputed deposit: the frozen funds leave the ledger
/// for good and the client's account is locked.
#[derive(Clone, Copy, Debug)]
pub struct Chargeback {
    pub disputed_transaction: TransactionId,
}

/// An action (transaction) on a client's account: the closed set of five
/// kinds of record the transaction log can carry.
#[derive(Clone, Copy, Debug)]
pub enum AccountAction {
    Deposit(Deposit),
    Withdrawal(Withdrawal),
    Dispute(Dispute),
    Resolve(Resolve),
    Chargeback(Chargeback),
}

/// The upper-case form of a character.
fn upper_char(c: char) -> (r: char)
    ensures
        r == upper(c),
{
    match c {
        'a' => 'A',
        'b' => 'B',
        'c' => 'C',
        'd' => 'D',
        'e' => 'E',
        'f' => 'F',
        'g' => 'G',
        'h' => 'H',
        'i' => 'I',
        'j' => 'J',
        'k' => 'K',
        'l' => 'L',
        'm' => 'M',
        'n' => 'N',
        'o' => 'O',
        'p' => 'P',
        'q' => 'Q',
        'r' => 'R',
        's' => 'S',
        't' => 'T',
        'u' => 'U',
        'v' => 'V',
        'w' => 'W',
        'x' => 'X',
        'y' => 'Y',
        'z' => 'Z',
        _ => c,
    }
}

/// Whether a text equals a lower-case type tag, ignoring case.
#[verifier::loop_isolation(false)]
fn eq_tag_text(s: &str, t: &str) -> (b: bool)
    ensures
        b == eq_tag(s@, t@),
{
    let n = s.unicode_len();
    if n != t.unicode_len() {
        return false;
    }
    let mut i: usize = 0;
    while i < n
        invariant
            i <= n,
            n == s@.len(),
            n == t@.len(),
            forall|j: int| 0 <= j < i ==> matches_ci(s@[j], #[trigger] t@[j]),
        decreases n - i,
    {
        let c = s.get_char(i);
        let l = t.get_char(i);
        if !(c == l || c == upper_char(l)) {
            return false;
        }
        i = i + 1;
    }
    true
}

/// What validating one raw input record yields. The type tag is matched
/// case-insensitively. A deposit or withdrawal must carry a well-formed
/// amount (zero is allowed, absent is not); a dispute, resolve or
/// chargeback must carry none; an unknown tag is refused. The rules are
/// purely per record: no ledger state plays a part.
pub open spec fn spec_from_record(
    kind: Seq<char>,
    client: u16,
    tx: u32,
    amount: Option<Seq<char>>,
) -> Result<AccountAction, Error> {
    if eq_tag(kind, "deposit"@) {
        match amount {
            Option::None => Err(Error::MalformedRecord),
            Option::Some(a) => if valid_amount_text(a) {
                Ok(
                    AccountAction::Deposit(
                        Deposit {
                            client_id: ClientId(client),
                            transaction_id: TransactionId(tx),
                            amount: Amount(amount_text_value(a) as u64),
                        },
                    ),
                )
            } else {
                Err(Error::MalformedRecord)
            },
        }
    } else if eq_tag(kind, "withdrawal"@) {
        match amount {
            Option::None => Err(Error::MalformedRecord),
            Option::Some(a) => if valid_amount_text(a) {
                Ok(
                    AccountAction::Withdrawal(
                        Withdrawal {
                            client_id: ClientId(client),
                            transaction_id: TransactionId(tx),
                            amount: Amount(amount_text_value(a) as u64),
                        },
                    ),
                )
            } else {
                Err(Error::MalformedRecord)
            },
        }
    } else if eq_tag(kind, "dispute"@) {
        match amount {
            Option::Some(_) => Err(Error::MalformedRecord),
            Option::None => Ok(
                AccountAction::Dispute(Dispute { disputed_transaction: TransactionId(tx) }),
            ),
        }
    } else if eq_tag(kind, "resolve"@) {
        match amount {
            Option::Some(_) => Err(Error::MalformedRecord),
            Option::None => Ok(
                AccountAction::Resolve(Resolve { disputed_transaction: TransactionId(tx) }),
            ),
        }
    } else if eq_tag(kind, "chargeback"@) {
        match amount {
            Option::Some(_) => Err(Error::MalformedRecord),
            Option::None => Ok(
                AccountAction::Chargeback(Chargeback { disputed_transaction: TransactionId(tx) }),
            ),
        }
    } else {
        Err(Error::MalformedRecord)
    }
}

impl AccountAction {
    /// Turn one raw input record — type tag, client id, transaction id and
    /// optional amount text — into a validated action, or refuse it as
    /// malformed. A deposit or withdrawal requires a present, well-formed
    /// amount; a dispute, resolve or chargeback requires the amount field
    /// to be absent; the type tag is matched case-insensitively.
    pub fn from_record(kind: &str, client: u16, tx: u32, amount: Option<&str>) -> (r: Result<
        AccountAction,
        Error,
    >)
        ensures
            r == spec_from_record(kind@, client, tx, amount.deep_view()),
    {
        if eq_tag_text(kind, "deposit") {
            match amount {
                None => Err(Error::MalformedRecord),
                Some(a) => match Amount::from_text(a) {
                    Ok(amt) => Ok(
                        AccountAction::Deposit(
                            Deposit {
                                client_id: ClientId(client),
                                transaction_id: TransactionId(tx),
                                amount: amt,
                            },
                        ),
                    ),
                    Err(e) => Err(e),
                },
            }
        } else if eq_tag_text(kind, "withdrawal") {
            match amount {
                None => Err(Error::MalformedRecord),
                Some(a) => match Amount::from_text(a) {
                    Ok(amt) => Ok(
                        AccountAction::Withdrawal(
                            Withdrawal {
                                client_id: ClientId(client),
                                transaction_id: TransactionId(tx),
                                amount: amt,
                            },
                        ),
                    ),
                    Err(e) => Err(e),
                },
            }
        } else if eq_tag_text(kind, "dispute") {
            match amount {
                Some(_) => Err(Error::MalformedRecord),
                None => Ok(
                    AccountAction::Dispute(Dispute { disputed_transaction: TransactionId(tx) }),
                ),
            }
        } else if eq_tag_text(kind, "resolve") {
            match amount {
                Some(_) => Err(Error::MalformedRecord),
                None => Ok(
                    AccountAction::Resolve(Resolve { disputed_transaction: TransactionId(tx) }),
                ),
            }
        } else if eq_tag_text(kind, "chargeback") {
            match amount {
                Some(_) => Err(Error::MalformedRecord),
                None => Ok(
                    AccountAction::Chargeback(
                        Chargeback { disputed_transaction: TransactionId(tx) },
                    ),
                ),
            }
        } else {
            Err(Error::MalformedRecord)
        }
    }
}

} // verus!
