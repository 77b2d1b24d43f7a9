use vstd::prelude::*;

use crate::arena::Arena;
use crate::arena::BoundaryError;
use crate::arena::MemoryBlock;
use crate::codec::encode_string;
use crate::codec::utf8_check;
use crate::decimal::dec_format;
use crate::decimal::dec_sum;
use crate::decimal::parse_dec;
use crate::decimal::add_decimals;
use crate::decimal::format_decimal;
use crate::decimal::parse_decimal;
use crate::json::array_first;
use crate::json::check_json_text;
use crate::json::copy_range;
use crate::json::find_array_first;
use crate::json::find_object_member;
use crate::json::is_json_text;
use crate::json::object_member;
use crate::json::read_string_content;
use crate::json::string_content;
use crate::query::balance_query;
use crate::query::generate_balance_query;
use crate::text::append_bytes;
use crate::text::append_lit;
use crate::text::ascii_bytes;
use crate::text::lit_vec;
use crate::text::str_bytes;
use vstd::utf8::valid_utf8;

verus! {

/// Whether `length` bytes can be read from the start of the live buffer at
/// `address`: what every length-delimited entry point demands of an input.
pub open spec fn readable(arena: Arena, address: u64, length: usize) -> bool {
    arena.is_live(address) && length <= arena.bytes_at(address).len()
}

/// The text every length-delimited entry point answers when an input is
/// not valid UTF-8.
pub open spec fn encoding_error_text() -> Seq<u8> {
    ascii_bytes("Failed to decode input as UTF-8"@)
}

/// The content of `results[0].balance` in the result blob, when the blob
/// holds it as a string value.
pub open spec fn balance_content(result: Seq<u8>) -> Option<Seq<u8>> {
    match object_member(result, ascii_bytes("results"@)) {
        None => None,
        Some(rs) => {
            let arr = result.subrange(rs.0, rs.1);
            match array_first(arr) {
                None => None,
                Some(el) => {
                    let obj = arr.subrange(el.0, el.1);
                    match object_member(obj, ascii_bytes("balance"@)) {
                        None => None,
                        Some(bs) => string_content(obj.subrange(bs.0, bs.1)),
                    }
                },
            }
        },
    }
}

/// The summary or error text owed for a decoded result blob and amount:
/// the blob must be JSON, must hold `results[0].balance` as a decimal
/// string, and the amount must be a decimal; then the summary reports the
/// old balance, the credit and their exact sum. Success and each error are
/// told apart by the shape of this text, not by a separate status channel.
pub open spec fn credit_core_text(result: Seq<u8>, amount: Seq<u8>) -> Seq<u8> {
    if !is_json_text(result) {
        ascii_bytes("Failed to parse result JSON"@)
    } else {
        match balance_content(result) {
            None => ascii_bytes("Failed to extract balance from result"@),
            Some(bal) => match parse_dec(bal) {
                None => ascii_bytes("Failed to extract balance from result"@),
                Some(bd) => match parse_dec(amount) {
                    None => ascii_bytes("Failed to parse amount as decimal"@),
                    Some(ad) => ({
                        let su = dec_sum(bd, ad);
                        ascii_bytes("Current balance: "@) + dec_format(
                            if bd.0 {
                                -bd.1
                            } else {
                                bd.1
                            },
                            bd.2,
                        ) + ascii_bytes(". After credit of "@) + dec_format(
                            if ad.0 {
                                -ad.1
                            } else {
                                ad.1
                            },
                            ad.2,
                        ) + ascii_bytes(", new balance: "@) + dec_format(su.0, su.1)
                    }),
                },
            },
        }
    }
}

/// The text the credit-result entry point owes for its two inputs.
pub open spec fn credit_result_text(result: Seq<u8>, amount: Seq<u8>) -> Seq<u8> {
    if !valid_utf8(result) || !valid_utf8(amount) {
        encoding_error_text()
    } else {
        credit_core_text(result, amount)
    }
}

/// The text the credit-leg entry point owes: the balance query for the
/// account. The amount is decoded and validated but not used: the credit
/// leg only looks the balance up.
pub open spec fn credit_leg_text(amount: Seq<u8>, account: Seq<u8>) -> Seq<u8> {
    if !valid_utf8(amount) || !valid_utf8(account) {
        encoding_error_text()
    } else {
        balance_query(account)
    }
}

/// The text the debit-leg entry point owes: a description only. No query
/// and no arithmetic stand behind the debit side in this design; the gap
/// is deliberate and waits for a real ledger integration.
pub open spec fn debit_leg_text(amount: Seq<u8>, account: Seq<u8>) -> Seq<u8> {
    if !valid_utf8(amount) || !valid_utf8(account) {
        encoding_error_text()
    } else {
        ascii_bytes("Debiting "@) + amount + ascii_bytes(" from account "@) + account
    }
}

/// Builds the summary or error text for a UTF-8 result blob and amount.
fn credit_text(result: &[u8], amount: &[u8]) -> (r: Vec<u8>)
    ensures
        r@ == credit_core_text(result@, amount@),
{
    proof {
        reveal_strlit("results");
        reveal_strlit("balance");
        reveal_strlit("Failed to parse result JSON");
        reveal_strlit("Failed to extract balance from result");
        reveal_strlit("Failed to parse amount as decimal");
        reveal_strlit("Current balance: ");
        reveal_strlit(". After credit of ");
        reveal_strlit(", new balance: ");
    }
    if !check_json_text(result) {
        return lit_vec("Failed to parse result JSON");
    }
    let bal: Option<Vec<u8>> = match find_object_member(result, str_bytes("results")) {
        None => None,
        Some(rs) => {
            let arr = copy_range(result, rs.0, rs.1);
            match find_array_first(arr.as_slice()) {
                None => None,
                Some(el) => {
                    let obj = copy_range(arr.as_slice(), el.0, el.1);
                    match find_object_member(obj.as_slice(), str_bytes("balance")) {
                        None => None,
                        Some(bs) => {
                            let bv = copy_range(obj.as_slice(), bs.0, bs.1);
                            read_string_content(bv.as_slice())
                        },
                    }
                },
            }
        },
    };
    match bal {
        None => lit_vec("Failed to extract balance from result"),
        Some(balance_bytes) => {
            match parse_decimal(balance_bytes.as_slice()) {
                None => lit_vec("Failed to extract balance from result"),
                Some(bd) => {
                    match parse_decimal(amount) {
                        None => lit_vec("Failed to parse amount as decimal"),
                        Some(ad) => {
                            let mut out = lit_vec("Current balance: ");
                            let btxt = format_decimal(&bd);
                            append_bytes(&mut out, btxt.as_slice());
                            append_lit(&mut out, ". After credit of ");
                            let atxt = format_decimal(&ad);
                            append_bytes(&mut out, atxt.as_slice());
                            append_lit(&mut out, ", new balance: ");
                            let stxt = add_decimals(&bd, &ad);
                            append_bytes(&mut out, stxt.as_slice());
                            proof {
                                assert(out@ =~= credit_core_text(result@, amount@));
                            }
                            out
                        },
                    }
                },
            }
        },
    }
}

/// The credit-leg entry point: decodes the length-delimited amount and
/// account, validates them as UTF-8, and returns a fresh null-terminated
/// buffer holding the balance query, or the encoding-error text.
pub fn execute_credit_leg(
    arena: &mut Arena,
    amount_addr: u64,
    amount_len: usize,
    account_addr: u64,
    account_len: usize,
) -> (r: Result<MemoryBlock, BoundaryError>)
    requires
        old(arena).wf(),
    ensures
        final(arena).wf(),
        r is Err ==> *final(arena) == *old(arena),
        !readable(*old(arena), amount_addr, amount_len) ==> r is Err,
        readable(*old(arena), amount_addr, amount_len) && !readable(
            *old(arena),
            account_addr,
            account_len,
        ) ==> r is Err,
        readable(*old(arena), amount_addr, amount_len) && readable(
            *old(arena),
            account_addr,
            account_len,
        ) ==> ({
            let t = credit_leg_text(
                old(arena).bytes_at(amount_addr).take(amount_len as int),
                old(arena).bytes_at(account_addr).take(account_len as int),
            );
            &&& (r is Ok <==> !old(arena).exhausted())
            &&& r is Err ==> r == Err::<MemoryBlock, BoundaryError>(BoundaryError::OutOfMemory)
            &&& r is Ok ==> ({
                let b = r->Ok_0;
                &&& !old(arena).is_live(b.address)
                &&& final(arena).is_live(b.address)
                &&& final(arena).bytes_at(b.address) == t + seq![0u8]
                &&& b.length == t.len() + 1
                &&& forall|a: u64|
                    a != b.address ==> final(arena).is_live(a) == old(arena).is_live(a)
                &&& forall|a: u64|
                    a != b.address && old(arena).is_live(a) ==> final(arena).bytes_at(a) == old(
                        arena,
                    ).bytes_at(a)
            })
        }),
{
    let amount = match arena.read_bytes(amount_addr, amount_len) {
        Ok(v) => v,
        Err(e) => {
            return Err(e);
        },
    };
    let account = match arena.read_bytes(account_addr, account_len) {
        Ok(v) => v,
        Err(e) => {
            return Err(e);
        },
    };
    let text: Vec<u8> = if !utf8_check(amount.as_slice()) || !utf8_check(account.as_slice()) {
        proof {
            reveal_strlit("Failed to decode input as UTF-8");
        }
        lit_vec("Failed to decode input as UTF-8")
    } else {
        generate_balance_query(account.as_slice())
    };
    encode_string(arena, text.as_slice(), true)
}

/// The credit-result entry point: decodes the length-delimited result blob
/// and amount, and returns a fresh null-terminated buffer holding the
/// balance summary, or the text of the error that stopped it.
pub fn process_credit_result(
    arena: &mut Arena,
    result_addr: u64,
    result_len: usize,
    amount_addr: u64,
    amount_len: usize,
) -> (r: Result<MemoryBlock, BoundaryError>)
    requires
        old(arena).wf(),
    ensures
        final(arena).wf(),
        r is Err ==> *final(arena) == *old(arena),
        !readable(*old(arena), result_addr, result_len) ==> r is Err,
        readable(*old(arena), result_addr, result_len) && !readable(
            *old(arena),
            amount_addr,
            amount_len,
        ) ==> r is Err,
        readable(*old(arena), result_addr, result_len) && readable(
            *old(arena),
            amount_addr,
            amount_len,
        ) ==> ({
            let t = credit_result_text(
                old(arena).bytes_at(result_addr).take(result_len as int),
                old(arena).bytes_at(amount_addr).take(amount_len as int),
            );
            &&& (r is Ok <==> !old(arena).exhausted())
            &&& r is Err ==> r == Err::<MemoryBlock, BoundaryError>(BoundaryError::OutOfMemory)
            &&& r is Ok ==> ({
                let b = r->Ok_0;
                &&& !old(arena).is_live(b.address)
                &&& final(arena).is_live(b.address)
                &&& final(arena).bytes_at(b.address) == t + seq![0u8]
                &&& b.length == t.len() + 1
                &&& forall|a: u64|
                    a != b.address ==> final(arena).is_live(a) == old(arena).is_live(a)
                &&& forall|a: u64|
                    a != b.address && old(arena).is_live(a) ==> final(arena).bytes_at(a) == old(
                        arena,
                    ).bytes_at(a)
            })
        }),
{
    let result = match arena.read_bytes(result_addr, result_len) {
        Ok(v) => v,
        Err(e) => {
            return Err(e);
        },
    };
    let amount = match arena.read_bytes(amount_addr, amount_len) {
        Ok(v) => v,
        Err(e) => {
            return Err(e);
        },
    };
    let text: Vec<u8> = if !utf8_check(result.as_slice()) || !utf8_check(amount.as_slice()) {
        proof {
            reveal_strlit("Failed to decode input as UTF-8");
        }
        lit_vec("Failed to decode input as UTF-8")
    } else {
        credit_text(result.as_slice(), amount.as_slice())
    };
    encode_string(arena, text.as_slice(), true)
}

/// The debit-leg entry point: decodes the length-delimited amount and
/// account and returns a fresh null-terminated buffer holding the debit
/// description, or the encoding-error text.
pub fn execute_debit_leg(
    arena: &mut Arena,
    amount_addr: u64,
    amount_len: usize,
    account_addr: u64,
    account_len: usize,
) -> (r: Result<MemoryBlock, BoundaryError>)
    requires
        old(arena).wf(),
    ensures
        final(arena).wf(),
        r is Err ==> *final(arena) == *old(arena),
        !readable(*old(arena), amount_addr, amount_len) ==> r is Err,
        readable(*old(arena), amount_addr, amount_len) && !readable(
            *old(arena),
            account_addr,
            account_len,
        ) ==> r is Err,
        readable(*old(arena), amount_addr, amount_len) && readable(
            *old(arena),
            account_addr,
            account_len,
        ) ==> ({
            let t = debit_leg_text(
                old(arena).bytes_at(amount_addr).take(amount_len as int),
                old(arena).bytes_at(account_addr).take(account_len as int),
            );
            &&& (r is Ok <==> !old(arena).exhausted())
            &&& r is Err ==> r == Err::<MemoryBlock, BoundaryError>(BoundaryError::OutOfMemory)
            &&& r is Ok ==> ({
                let b = r->Ok_0;
                &&& !old(arena).is_live(b.address)
                &&& final(arena).is_live(b.address)
                &&& final(arena).bytes_at(b.address) == t + seq![0u8]
                &&& b.length == t.len() + 1
                &&& forall|a: u64|
                    a != b.address ==> final(arena).is_live(a) == old(arena).is_live(a)
                &&& forall|a: u64|
                    a != b.address && old(arena).is_live(a) ==> final(arena).bytes_at(a) == old(
                        arena,
                    ).bytes_at(a)
            })
        }),
{
    let amount = match arena.read_bytes(amount_addr, amount_len) {
        Ok(v) => v,
        Err(e) => {
            return Err(e);
        },
    };
    let account = match arena.read_bytes(account_addr, account_len) {
        Ok(v) => v,
        Err(e) => {
            return Err(e);
        },
    };
    let text: Vec<u8> = if !utf8_check(amount.as_slice()) || !utf8_check(account.as_slice()) {
        proof {
            reveal_strlit("Failed to decode input as UTF-8");
        }
        lit_vec("Failed to decode input as UTF-8")
    } else {
        proof {
            reveal_strlit("Debiting ");
            reveal_strlit(" from account ");
        }
        let mut out = lit_vec("Debiting ");
        append_bytes(&mut out, amount.as_slice());
        append_lit(&mut out, " from account ");
        append_bytes(&mut out, account.as_slice());
        proof {
            assert(out@ =~= debit_leg_text(amount@, account@));
        }
        out
    };
    encode_string(arena, text.as_slice(), true)
}

} // verus!
