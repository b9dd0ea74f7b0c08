use vstd::prelude::*;
use vstd::string::*;

use crate::text::{decimal, decimal_text};

verus! {

/// A DNS query type; codes other than the four known ones are kept as they
/// are.
#[derive(Debug, Clone, Copy, PartialEq, Eq, Structural, PartialOrd, Ord, Hash)]
pub enum QueryType {
    UNKNOWN(u16),
    /// A host address
    A,
    /// IP6 Address
    AAAA,
    CNAME,
    /// Service locator
    SRV,
}

impl QueryType {
    /// The numeric code of a query type.
    pub open spec fn code(self) -> u16 {
        match self {
            QueryType::UNKNOWN(v) => v,
            QueryType::A => 1,
            QueryType::AAAA => 28,
            QueryType::CNAME => 5,
            QueryType::SRV => 33,
        }
    }

    /// The query type of a numeric code.
    pub open spec fn from_code(v: u16) -> QueryType {
        if v == 1 {
            QueryType::A
        } else if v == 5 {
            QueryType::CNAME
        } else if v == 28 {
            QueryType::AAAA
        } else if v == 33 {
            QueryType::SRV
        } else {
            QueryType::UNKNOWN(v)
        }
    }

    /// The display name: the mnemonic, or `UNKNOWN(<code>)`.
    pub open spec fn spec_text(self) -> Seq<char> {
        match self {
            QueryType::A => "A"@,
            QueryType::AAAA => "AAAA"@,
            QueryType::CNAME => "CNAME"@,
            QueryType::SRV => "SRV"@,
            QueryType::UNKNOWN(v) => "UNKNOWN("@ + decimal_text(v as nat) + ")"@,
        }
    }

    /// The display name: the mnemonic, or `UNKNOWN(<code>)`.
    pub fn to_string(&self) -> (r: String)
        ensures
            r@ == self.spec_text(),
    {
        match self {
            QueryType::A => String::from_str("A"),
            QueryType::AAAA => String::from_str("AAAA"),
            QueryType::CNAME => String::from_str("CNAME"),
            QueryType::SRV => String::from_str("SRV"),
            QueryType::UNKNOWN(v) => {
                let s = String::from_str("UNKNOWN(").concat(decimal(*v as u64).as_str());
                s.concat(")")
            },
        }
    }
}

/// Decodes a numeric query type code.
pub fn query_type_of(value: u16) -> (r: QueryType)
    ensures
        r == QueryType::from_code(value),
        r.code() == value,
{
    if value == 1 {
        QueryType::A
    } else if value == 5 {
        QueryType::CNAME
    } else if value == 28 {
        QueryType::AAAA
    } else if value == 33 {
        QueryType::SRV
    } else {
        QueryType::UNKNOWN(value)
    }
}

/// The numeric code of a query type.
pub fn code_of(value: QueryType) -> (r: u16)
    ensures
        r == value.code(),
{
    match value {
        QueryType::UNKNOWN(v) => v,
        QueryType::A => 1,
        QueryType::AAAA => 28,
        QueryType::CNAME => 5,
        QueryType::SRV => 33,
    }
}

impl From<QueryType> for u16 {
    fn from(value: QueryType) -> (r: u16) {
        code_of(value)
    }
}

impl vstd::std_specs::convert::FromSpecImpl<QueryType> for u16 {
    open spec fn obeys_from_spec() -> bool {
        true
    }

    open spec fn from_spec(v: QueryType) -> u16 {
        v.code()
    }
}

impl From<u16> for QueryType {
    fn from(value: u16) -> (r: QueryType) {
        query_type_of(value)
    }
}

impl vstd::std_specs::convert::FromSpecImpl<u16> for QueryType {
    open spec fn obeys_from_spec() -> bool {
        true
    }

    open spec fn from_spec(v: u16) -> QueryType {
        QueryType::from_code(v)
    }
}

} // verus!
