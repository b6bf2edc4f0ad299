use vstd::prelude::*;
use vstd::string::StringExecFns;
use crate::amount::{Amount, AmountError, amount_of, parse_amount};

verus! {

/// A numeric flag whose value is not an amount.
#[derive(Debug)]
pub struct NumberError {
    /// The flag's letter.
    pub flag: char,
    /// The value as given.
    pub token: String,
    pub reason: AmountError,
}

/// The letter of a flag of the calculators, as text.
pub open spec fn flag_text(flag: char) -> Seq<char> {
    if flag == 'c' { "c"@ }
    else if flag == 'r' { "r"@ }
    else if flag == 'p' { "p"@ }
    else if flag == 's' { "s"@ }
    else if flag == 'i' { "i"@ }
    else { "?"@ }
}

impl NumberError {
    pub open spec fn message_spec(&self) -> Seq<char> {
        let why: Seq<char> = match self.reason {
            AmountError::Malformed => "invalid number"@,
            AmountError::TooPrecise => "more than eight decimal places in"@,
            AmountError::OutOfRange => "number out of range"@,
        };
        "-"@ + flag_text(self.flag) + ": "@ + why + " '"@ + self.token@ + "'"@
    }

    /// A one-line description naming the flag and the offending value.
    pub fn message(&self) -> (r: String)
        ensures
            r@ == self.message_spec(),
    {
        let mut r = String::from_str("-");
        let f = if self.flag == 'c' { "c" }
            else if self.flag == 'r' { "r" }
            else if self.flag == 'p' { "p" }
            else if self.flag == 's' { "s" }
            else if self.flag == 'i' { "i" }
            else { "?" };
        r.append(f);
        r.append(": ");
        let why = match self.reason {
            AmountError::Malformed => "invalid number",
            AmountError::TooPrecise => "more than eight decimal places in",
            AmountError::OutOfRange => "number out of range",
        };
        r.append(why);
        r.append(" '");
        r.append(self.token.as_str());
        r.append("'");
        r
    }
}

/// `err` reports that `text`, given for `flag`, is not an amount.
pub open spec fn rejects(flag: char, text: Seq<char>, err: NumberError) -> bool {
    match amount_of(text) {
        Ok(u) => false,
        Err(e) => err.flag == flag && err.token@ == text && err.reason == e,
    }
}

/// The value of a numeric flag, or why it has none.
pub open spec fn flag_reads(flag: char, text: Seq<char>, r: Result<Amount, NumberError>) -> bool {
    match r {
        Ok(a) => amount_of(text) == Ok::<int, AmountError>(a.units as int),
        Err(err) => rejects(flag, text, err),
    }
}

/// Reads the value of the numeric flag `flag`.
pub fn read_flag(flag: char, text: String) -> (r: Result<Amount, NumberError>)
    ensures
        flag_reads(flag, text@, r),
{
    match parse_amount(text.as_str()) {
        Ok(a) => {
            Ok(a)
        },
        Err(reason) => Err(NumberError { flag, token: text, reason }),
    }
}

/// The inputs of the risk-based calculator.
#[derive(Clone, Copy, Debug, PartialEq, Eq, Structural)]
pub struct RiskInputs {
    pub cash: Amount,
    pub risk: Amount,
    pub price: Amount,
    pub stop: Amount,
}

/// What the risk-based calculator is asked to do.
#[derive(Clone, Copy, Debug, PartialEq, Eq, Structural)]
pub enum RiskCommand {
    /// Show the usage text and stop successfully.
    Usage,
    Run(RiskInputs),
}

/// Decides from the flags `-h`, `-c`, `-r`, `-p` and `-s` what the
/// risk-based calculator does. A request for help, or any of the four values
/// missing, asks for the usage text; otherwise the values are read in the
/// order `-c`, `-r`, `-p`, `-s` and the first that is not a number is
/// reported.
pub fn risk_command(
    help: bool,
    cash: Option<String>,
    risk: Option<String>,
    price: Option<String>,
    stop: Option<String>,
) -> (r: Result<RiskCommand, NumberError>)
    ensures
        (help || cash is None || risk is None || price is None || stop is None)
            ==> r matches Ok(RiskCommand::Usage),
        !(help || cash is None || risk is None || price is None || stop is None) ==> {
            let (c, k, p, s) = (cash->Some_0@, risk->Some_0@, price->Some_0@, stop->Some_0@);
            if amount_of(c) is Err {
                r matches Err(e) && rejects('c', c, e)
            } else if amount_of(k) is Err {
                r matches Err(e) && rejects('r', k, e)
            } else if amount_of(p) is Err {
                r matches Err(e) && rejects('p', p, e)
            } else if amount_of(s) is Err {
                r matches Err(e) && rejects('s', s, e)
            } else {
                r matches Ok(RiskCommand::Run(inp))
                    && inp.cash.units == amount_of(c)->Ok_0
                    && inp.risk.units == amount_of(k)->Ok_0
                    && inp.price.units == amount_of(p)->Ok_0
                    && inp.stop.units == amount_of(s)->Ok_0
            }
        },
{
    if help {
        return Ok(RiskCommand::Usage);
    }
    match (cash, risk, price, stop) {
        (Some(c), Some(k), Some(p), Some(s)) => {
            let cash = read_flag('c', c)?;
            let risk = read_flag('r', k)?;
            let price = read_flag('p', p)?;
            let stop = read_flag('s', s)?;
            Ok(RiskCommand::Run(RiskInputs { cash, risk, price, stop }))
        },
        _ => Ok(RiskCommand::Usage),
    }
}

/// The inputs of the price table.
#[derive(Clone, Copy, Debug, PartialEq, Eq, Structural)]
pub struct TableInputs {
    pub price: Amount,
    pub cash: Amount,
}

/// What the price table is asked to do.
#[derive(Clone, Copy, Debug, PartialEq, Eq, Structural)]
pub enum TableCommand {
    /// Show the usage text and stop successfully.
    Usage,
    Run(TableInputs),
}

/// Decides from the flags `-h`, `-p` and `-i` what the price table does. A
/// request for help, or either value missing, asks for the usage text;
/// otherwise the values are read in the order `-p`, `-i` and the first that
/// is not a number is reported.
pub fn table_command(help: bool, price: Option<String>, cash: Option<String>) -> (r: Result<TableCommand, NumberError>)
    ensures
        (help || price is None || cash is None) ==> r matches Ok(TableCommand::Usage),
        !(help || price is None || cash is None) ==> {
            let (p, c) = (price->Some_0@, cash->Some_0@);
            if amount_of(p) is Err {
                r matches Err(e) && rejects('p', p, e)
            } else if amount_of(c) is Err {
                r matches Err(e) && rejects('i', c, e)
            } else {
                r matches Ok(TableCommand::Run(inp))
                    && inp.price.units == amount_of(p)->Ok_0
                    && inp.cash.units == amount_of(c)->Ok_0
            }
        },
{
    if help {
        return Ok(TableCommand::Usage);
    }
    match (price, cash) {
        (Some(p), Some(c)) => {
            let price = read_flag('p', p)?;
            let cash = read_flag('i', c)?;
            Ok(TableCommand::Run(TableInputs { price, cash }))
        },
        _ => Ok(TableCommand::Usage),
    }
}

} // verus!
