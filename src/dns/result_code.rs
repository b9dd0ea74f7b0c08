use vstd::prelude::*;
use vstd::string::*;

verus! {

/// A DNS response code.
#[derive(Debug, Clone, Copy, PartialEq, Eq, Structural)]
pub enum ResultCode {
    /// No Error
    NoError,
    /// Format Error
    FormErr,
    /// Server Failure
    ServFail,
    /// Non-Existent Domain
    NXDomain,
    /// Not Implemented
    NotImp,
    /// Query Refused
    Refused,
    /// Name Exists when it should not
    YXDomain,
    /// RR Set Exists when it should not
    YXRRSet,
    /// RR Set that should exist does not
    NXRRSet,
    /// Server Not Authoritative for zone
    NotAuth,
    /// Name not contained in zone
    NotZone,
    /// DSO-TYPE Not Implemented
    DSOTYPENI,
    /// Bad OPT Version
    BADVERS,
    /// Key not recognized
    BADKEY,
    /// Signature out of time window
    BADTIME,
    /// Bad TKEY Mode
    BADMODE,
    /// Duplicate key name
    BADNAME,
    /// Algorithm not supported
    BADALG,
    /// Bad Truncation
    BADTRUNC,
    /// Bad/missing Server Cookie
    BADCOOKIE,
}

impl ResultCode {
    /// The numeric value of a response code.
    pub open spec fn spec_code(self) -> u8 {
        match self {
            ResultCode::NoError => 0,
            ResultCode::FormErr => 1,
            ResultCode::ServFail => 2,
            ResultCode::NXDomain => 3,
            ResultCode::NotImp => 4,
            ResultCode::Refused => 5,
            ResultCode::YXDomain => 6,
            ResultCode::YXRRSet => 7,
            ResultCode::NXRRSet => 8,
            ResultCode::NotAuth => 9,
            ResultCode::NotZone => 10,
            ResultCode::DSOTYPENI => 11,
            ResultCode::BADVERS => 16,
            ResultCode::BADKEY => 17,
            ResultCode::BADTIME => 18,
            ResultCode::BADMODE => 19,
            ResultCode::BADNAME => 20,
            ResultCode::BADALG => 21,
            ResultCode::BADTRUNC => 22,
            ResultCode::BADCOOKIE => 23,
        }
    }

    /// The response code of a value; values without a code read as `NoError`.
    pub open spec fn from_code(v: u8) -> ResultCode {
        if v == 0 { ResultCode::NoError }
        else if v == 1 { ResultCode::FormErr }
        else if v == 2 { ResultCode::ServFail }
        else if v == 3 { ResultCode::NXDomain }
        else if v == 4 { ResultCode::NotImp }
        else if v == 5 { ResultCode::Refused }
        else if v == 6 { ResultCode::YXDomain }
        else if v == 7 { ResultCode::YXRRSet }
        else if v == 8 { ResultCode::NXRRSet }
        else if v == 9 { ResultCode::NotAuth }
        else if v == 10 { ResultCode::NotZone }
        else if v == 11 { ResultCode::DSOTYPENI }
        else if v == 16 { ResultCode::BADVERS }
        else if v == 17 { ResultCode::BADKEY }
        else if v == 18 { ResultCode::BADTIME }
        else if v == 19 { ResultCode::BADMODE }
        else if v == 20 { ResultCode::BADNAME }
        else if v == 21 { ResultCode::BADALG }
        else if v == 22 { ResultCode::BADTRUNC }
        else if v == 23 { ResultCode::BADCOOKIE }
        else { ResultCode::NoError }
    }

    /// The description of a response code.
    pub open spec fn spec_text(self) -> Seq<char> {
        match self {
            ResultCode::NoError => "No Error"@,
            ResultCode::FormErr => "Form Error"@,
            ResultCode::ServFail => "Server Failure"@,
            ResultCode::NXDomain => "Non-Existent Domain"@,
            ResultCode::NotImp => "Not Implemented"@,
            ResultCode::Refused => "Query Refused"@,
            ResultCode::YXDomain => "Name Exists when it should not"@,
            ResultCode::YXRRSet => "RR Set Exists when it should not"@,
            ResultCode::NXRRSet => "RR Set that should exist does not"@,
            ResultCode::NotAuth => "Server Not Authoritative for zone"@,
            ResultCode::NotZone => "Name not contained in zone"@,
            ResultCode::DSOTYPENI => "DSO-TYPE Not Implemented"@,
            ResultCode::BADVERS => "Bad OPT Version"@,
            ResultCode::BADKEY => "Key not recognized"@,
            ResultCode::BADTIME => "Signature out of time window"@,
            ResultCode::BADMODE => "Bad TKEY Mode"@,
            ResultCode::BADNAME => "Duplicate key name"@,
            ResultCode::BADALG => "Algorithm not supported"@,
            ResultCode::BADTRUNC => "Bad Truncation"@,
            ResultCode::BADCOOKIE => "Bad/missing Server Cookie"@,
        }
    }

    /// The numeric value of this response code.
    pub fn code(&self) -> (r: u8)
        ensures
            r == self.spec_code(),
    {
        match self {
            ResultCode::NoError => 0,
            ResultCode::FormErr => 1,
            ResultCode::ServFail => 2,
            ResultCode::NXDomain => 3,
            ResultCode::NotImp => 4,
            ResultCode::Refused => 5,
            ResultCode::YXDomain => 6,
            ResultCode::YXRRSet => 7,
            ResultCode::NXRRSet => 8,
            ResultCode::NotAuth => 9,
            ResultCode::NotZone => 10,
            ResultCode::DSOTYPENI => 11,
            ResultCode::BADVERS => 16,
            ResultCode::BADKEY => 17,
            ResultCode::BADTIME => 18,
            ResultCode::BADMODE => 19,
            ResultCode::BADNAME => 20,
            ResultCode::BADALG => 21,
            ResultCode::BADTRUNC => 22,
            ResultCode::BADCOOKIE => 23,
        }
    }

    /// The description of this response code.
    pub fn to_string(&self) -> (r: String)
        ensures
            r@ == self.spec_text(),
    {
        let s = match self {
            ResultCode::NoError => "No Error",
            ResultCode::FormErr => "Form Error",
            ResultCode::ServFail => "Server Failure",
            ResultCode::NXDomain => "Non-Existent Domain",
            ResultCode::NotImp => "Not Implemented",
            ResultCode::Refused => "Query Refused",
            ResultCode::YXDomain => "Name Exists when it should not",
            ResultCode::YXRRSet => "RR Set Exists when it should not",
            ResultCode::NXRRSet => "RR Set that should exist does not",
            ResultCode::NotAuth => "Server Not Authoritative for zone",
            ResultCode::NotZone => "Name not contained in zone",
            ResultCode::DSOTYPENI => "DSO-TYPE Not Implemented",
            ResultCode::BADVERS => "Bad OPT Version",
            ResultCode::BADKEY => "Key not recognized",
            ResultCode::BADTIME => "Signature out of time window",
            ResultCode::BADMODE => "Bad TKEY Mode",
            ResultCode::BADNAME => "Duplicate key name",
            ResultCode::BADALG => "Algorithm not supported",
            ResultCode::BADTRUNC => "Bad Truncation",
            ResultCode::BADCOOKIE => "Bad/missing Server Cookie",
        };
        String::from_str(s)
    }
}

/// Decodes a response code; values without a code read as `NoError`.
pub fn result_code_of(value: u8) -> (r: ResultCode)
    ensures
        r == ResultCode::from_code(value),
{
    if value == 0 { ResultCode::NoError }
    else if value == 1 { ResultCode::FormErr }
    else if value == 2 { ResultCode::ServFail }
    else if value == 3 { ResultCode::NXDomain }
    else if value == 4 { ResultCode::NotImp }
    else if value == 5 { ResultCode::Refused }
    else if value == 6 { ResultCode::YXDomain }
    else if value == 7 { ResultCode::YXRRSet }
    else if value == 8 { ResultCode::NXRRSet }
    else if value == 9 { ResultCode::NotAuth }
    else if value == 10 { ResultCode::NotZone }
    else if value == 11 { ResultCode::DSOTYPENI }
    else if value == 16 { ResultCode::BADVERS }
    else if value == 17 { ResultCode::BADKEY }
    else if value == 18 { ResultCode::BADTIME }
    else if value == 19 { ResultCode::BADMODE }
    else if value == 20 { ResultCode::BADNAME }
    else if value == 21 { ResultCode::BADALG }
    else if value == 22 { ResultCode::BADTRUNC }
    else if value == 23 { ResultCode::BADCOOKIE }
    else { ResultCode::NoError }
}

impl From<u8> for ResultCode {
    fn from(value: u8) -> (r: ResultCode) {
        result_code_of(value)
    }
}

impl vstd::std_specs::convert::FromSpecImpl<u8> for ResultCode {
    open spec fn obeys_from_spec() -> bool {
        true
    }

    open spec fn from_spec(v: u8) -> ResultCode {
        ResultCode::from_code(v)
    }
}

} // verus!
