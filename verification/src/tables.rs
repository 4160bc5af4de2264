//! Read-only lookup tables: tag number to field name, (tag, coded value) to
//! human-readable value, and message-type code to message-type name.
//!
//! Translation is total with an identity fallback: a tag or value outside the
//! tables is rendered as it stands, it never fails.
use vstd::prelude::*;

use vstd::string::StringExecFns;

use crate::numeral::spec_digits;
use crate::strutil::str_eq;

verus! {

/// The field name of a tag, where the table knows one.
pub open spec fn spec_tag_name(tag: int) -> Option<Seq<char>> {
    if tag == 1 {
        Some("Account"@)
    } else if tag == 6 {
        Some("AvgPx"@)
    } else if tag == 8 {
        Some("BeginString"@)
    } else if tag == 10 {
        Some("CheckSum"@)
    } else if tag == 11 {
        Some("ClOrdID"@)
    } else if tag == 14 {
        Some("CumQty"@)
    } else if tag == 15 {
        Some("Currency"@)
    } else if tag == 31 {
        Some("LastPx"@)
    } else if tag == 32 {
        Some("LastQty"@)
    } else if tag == 34 {
        Some("MsgSeqNum"@)
    } else if tag == 35 {
        Some("MsgType"@)
    } else if tag == 37 {
        Some("OrderID"@)
    } else if tag == 38 {
        Some("OrderQty"@)
    } else if tag == 39 {
        Some("OrdStatus"@)
    } else if tag == 40 {
        Some("OrdType"@)
    } else if tag == 44 {
        Some("Price"@)
    } else if tag == 49 {
        Some("SenderCompID"@)
    } else if tag == 52 {
        Some("SendingTime"@)
    } else if tag == 54 {
        Some("Side"@)
    } else if tag == 55 {
        Some("Symbol"@)
    } else if tag == 56 {
        Some("TargetCompID"@)
    } else if tag == 58 {
        Some("Text"@)
    } else if tag == 150 {
        Some("ExecType"@)
    } else if tag == 151 {
        Some("LeavesQty"@)
    } else if tag == 262 {
        Some("MDReqID"@)
    } else if tag == 268 {
        Some("NoMDEntries"@)
    } else if tag == 269 {
        Some("MDEntryType"@)
    } else if tag == 270 {
        Some("MDEntryPx"@)
    } else if tag == 271 {
        Some("MDEntrySize"@)
    } else {
        None
    }
}

/// How a tag is displayed: its name where the table knows one, its numeral
/// otherwise.
pub open spec fn spec_tag_display(tag: int) -> Seq<char> {
    match spec_tag_name(tag) {
        Some(name) => name,
        None => spec_digits(tag),
    }
}

pub fn tag_name(tag: usize) -> (r: Option<&'static str>)
    ensures
        r is Some <==> spec_tag_name(tag as int) is Some,
        r matches Some(s) ==> spec_tag_name(tag as int) == Some(s@),
{
    if tag == 1 {
        Some("Account")
    } else if tag == 6 {
        Some("AvgPx")
    } else if tag == 8 {
        Some("BeginString")
    } else if tag == 10 {
        Some("CheckSum")
    } else if tag == 11 {
        Some("ClOrdID")
    } else if tag == 14 {
        Some("CumQty")
    } else if tag == 15 {
        Some("Currency")
    } else if tag == 31 {
        Some("LastPx")
    } else if tag == 32 {
        Some("LastQty")
    } else if tag == 34 {
        Some("MsgSeqNum")
    } else if tag == 35 {
        Some("MsgType")
    } else if tag == 37 {
        Some("OrderID")
    } else if tag == 38 {
        Some("OrderQty")
    } else if tag == 39 {
        Some("OrdStatus")
    } else if tag == 40 {
        Some("OrdType")
    } else if tag == 44 {
        Some("Price")
    } else if tag == 49 {
        Some("SenderCompID")
    } else if tag == 52 {
        Some("SendingTime")
    } else if tag == 54 {
        Some("Side")
    } else if tag == 55 {
        Some("Symbol")
    } else if tag == 56 {
        Some("TargetCompID")
    } else if tag == 58 {
        Some("Text")
    } else if tag == 150 {
        Some("ExecType")
    } else if tag == 151 {
        Some("LeavesQty")
    } else if tag == 262 {
        Some("MDReqID")
    } else if tag == 268 {
        Some("NoMDEntries")
    } else if tag == 269 {
        Some("MDEntryType")
    } else if tag == 270 {
        Some("MDEntryPx")
    } else if tag == 271 {
        Some("MDEntrySize")
    } else {
        None
    }
}

/// The human-readable form of a coded value, where the table knows the
/// (tag, code) pair.
pub open spec fn spec_value_name(tag: int, value: Seq<char>) -> Option<Seq<char>> {
    if tag == 39 {
        if value == "0"@ {
            Some("New"@)
        } else if value == "1"@ {
            Some("PartiallyFilled"@)
        } else if value == "2"@ {
            Some("Filled"@)
        } else if value == "4"@ {
            Some("Canceled"@)
        } else if value == "8"@ {
            Some("Rejected"@)
        } else {
            None
        }
    } else if tag == 40 {
        if value == "1"@ {
            Some("Market"@)
        } else if value == "2"@ {
            Some("Limit"@)
        } else if value == "3"@ {
            Some("Stop"@)
        } else {
            None
        }
    } else if tag == 54 {
        if value == "1"@ {
            Some("Buy"@)
        } else if value == "2"@ {
            Some("Sell"@)
        } else {
            None
        }
    } else if tag == 150 {
        if value == "0"@ {
            Some("New"@)
        } else if value == "4"@ {
            Some("Canceled"@)
        } else if value == "8"@ {
            Some("Rejected"@)
        } else if value == "F"@ {
            Some("Trade"@)
        } else {
            None
        }
    } else if tag == 269 {
        if value == "0"@ {
            Some("Bid"@)
        } else if value == "1"@ {
            Some("Offer"@)
        } else if value == "2"@ {
            Some("Trade"@)
        } else {
            None
        }
    } else {
        None
    }
}

pub fn value_name(tag: usize, value: &str) -> (r: Option<&'static str>)
    ensures
        r is Some <==> spec_value_name(tag as int, value@) is Some,
        r matches Some(s) ==> spec_value_name(tag as int, value@) == Some(s@),
{
    if tag == 39 {
        if str_eq(value, "0") {
            Some("New")
        } else if str_eq(value, "1") {
            Some("PartiallyFilled")
        } else if str_eq(value, "2") {
            Some("Filled")
        } else if str_eq(value, "4") {
            Some("Canceled")
        } else if str_eq(value, "8") {
            Some("Rejected")
        } else {
            None
        }
    } else if tag == 40 {
        if str_eq(value, "1") {
            Some("Market")
        } else if str_eq(value, "2") {
            Some("Limit")
        } else if str_eq(value, "3") {
            Some("Stop")
        } else {
            None
        }
    } else if tag == 54 {
        if str_eq(value, "1") {
            Some("Buy")
        } else if str_eq(value, "2") {
            Some("Sell")
        } else {
            None
        }
    } else if tag == 150 {
        if str_eq(value, "0") {
            Some("New")
        } else if str_eq(value, "4") {
            Some("Canceled")
        } else if str_eq(value, "8") {
            Some("Rejected")
        } else if str_eq(value, "F") {
            Some("Trade")
        } else {
            None
        }
    } else if tag == 269 {
        if str_eq(value, "0") {
            Some("Bid")
        } else if str_eq(value, "1") {
            Some("Offer")
        } else if str_eq(value, "2") {
            Some("Trade")
        } else {
            None
        }
    } else {
        None
    }
}

/// The human name of a FIX message-type code (tag 35 value).
pub open spec fn spec_msg_type(code: Seq<char>) -> Option<Seq<char>> {
    if code == "0"@ {
        Some("Heartbeat"@)
    } else if code == "1"@ {
        Some("TestRequest"@)
    } else if code == "2"@ {
        Some("ResendRequest"@)
    } else if code == "3"@ {
        Some("Reject"@)
    } else if code == "4"@ {
        Some("SequenceReset"@)
    } else if code == "5"@ {
        Some("Logout"@)
    } else if code == "8"@ {
        Some("ExecutionReport"@)
    } else if code == "9"@ {
        Some("OrderCancelReject"@)
    } else if code == "A"@ {
        Some("Logon"@)
    } else if code == "D"@ {
        Some("NewOrderSingle"@)
    } else if code == "F"@ {
        Some("OrderCancelRequest"@)
    } else if code == "G"@ {
        Some("OrderCancelReplaceRequest"@)
    } else if code == "V"@ {
        Some("MarketDataRequest"@)
    } else if code == "W"@ {
        Some("MarketDataSnapshotFullRefresh"@)
    } else if code == "X"@ {
        Some("MarketDataIncrementalRefresh"@)
    } else if code == "Y"@ {
        Some("MarketDataRequestReject"@)
    } else {
        None
    }
}

pub fn msg_type_name(code: &str) -> (r: Option<&'static str>)
    ensures
        r is Some <==> spec_msg_type(code@) is Some,
        r matches Some(s) ==> spec_msg_type(code@) == Some(s@),
{
    if str_eq(code, "0") {
        Some("Heartbeat")
    } else if str_eq(code, "1") {
        Some("TestRequest")
    } else if str_eq(code, "2") {
        Some("ResendRequest")
    } else if str_eq(code, "3") {
        Some("Reject")
    } else if str_eq(code, "4") {
        Some("SequenceReset")
    } else if str_eq(code, "5") {
        Some("Logout")
    } else if str_eq(code, "8") {
        Some("ExecutionReport")
    } else if str_eq(code, "9") {
        Some("OrderCancelReject")
    } else if str_eq(code, "A") {
        Some("Logon")
    } else if str_eq(code, "D") {
        Some("NewOrderSingle")
    } else if str_eq(code, "F") {
        Some("OrderCancelRequest")
    } else if str_eq(code, "G") {
        Some("OrderCancelReplaceRequest")
    } else if str_eq(code, "V") {
        Some("MarketDataRequest")
    } else if str_eq(code, "W") {
        Some("MarketDataSnapshotFullRefresh")
    } else if str_eq(code, "X") {
        Some("MarketDataIncrementalRefresh")
    } else if str_eq(code, "Y") {
        Some("MarketDataRequestReject")
    } else {
        None
    }
}

/// How a tag is displayed, as executable code: name where known, numeral
/// otherwise.
pub fn tag_display(tag: usize) -> (r: String)
    ensures
        r@ == spec_tag_display(tag as int),
{
    match tag_name(tag) {
        Some(name) => String::from_str(name),
        None => crate::strutil::chars_to_string(&crate::numeral::digits_of(tag)),
    }
}

} // verus!
