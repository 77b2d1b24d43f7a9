use vstd::prelude::*;

use crate::text::append_bytes;
use crate::text::append_lit;
use crate::text::ascii_bytes;

verus! {

/// The fixed credit-side query template with `account` inserted. The
/// identifier is inserted without escaping, so an untrusted identifier is a
/// template-injection risk; validate it against an allowed charset before
/// substitution when that matters.
pub open spec fn balance_query(account: Seq<u8>) -> Seq<u8> {
    ascii_bytes(
        "PREFIX ex: <http://example.org/>\n        SELECT ?balance\n        WHERE {\n          ex:"@,
    ) + account + ascii_bytes(" ex:hasBalance ?balance .\n        }"@)
}

/// Renders the balance-lookup query for `account`.
pub fn generate_balance_query(account: &[u8]) -> (r: Vec<u8>)
    ensures
        r@ == balance_query(account@),
{
    proof {
        reveal_strlit(
            "PREFIX ex: <http://example.org/>\n        SELECT ?balance\n        WHERE {\n          ex:",
        );
        reveal_strlit(" ex:hasBalance ?balance .\n        }");
    }
    let mut out: Vec<u8> = Vec::new();
    append_lit(
        &mut out,
        "PREFIX ex: <http://example.org/>\n        SELECT ?balance\n        WHERE {\n          ex:",
    );
    append_bytes(&mut out, account);
    append_lit(&mut out, " ex:hasBalance ?balance .\n        }");
    proof {
        assert(out@ =~= balance_query(account@));
    }
    out
}

} // verus!
