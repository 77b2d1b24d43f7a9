use vstd::prelude::*;

use crate::text::bytes_eq;

verus! {

pub const QUOTE: u8 = 34;

pub const COMMA: u8 = 44;

pub const COLON: u8 = 58;

pub const LBRACKET: u8 = 91;

pub const BACKSLASH: u8 = 92;

pub const RBRACKET: u8 = 93;

pub const LBRACE: u8 = 123;

pub const RBRACE: u8 = 125;

/// JSON whitespace.
pub open spec fn is_ws(b: u8) -> bool {
    b == 32 || b == 9 || b == 10 || b == 13
}

/// A byte that may stand in a number, `true`, `false` or `null` token: the
/// scanner treats a primitive as a run of non-delimiter bytes and does not
/// validate it, since such values are passed through opaquely.
pub open spec fn is_prim_byte(b: u8) -> bool {
    !is_ws(b) && b != QUOTE && b != COMMA && b != COLON && b != LBRACKET && b != RBRACKET && b
        != LBRACE && b != RBRACE
}

/// First position at or after `i` that does not hold whitespace.
pub open spec fn ws_end(s: Seq<u8>, i: int) -> int
    decreases s.len() - i,
{
    if 0 <= i < s.len() && is_ws(s[i]) {
        ws_end(s, i + 1)
    } else {
        i
    }
}

/// Position just past the closing quote of the string whose opening quote
/// stands at `i - 1`; escape pairs are skipped, not interpreted.
pub open spec fn skip_string(s: Seq<u8>, i: int) -> Option<int>
    decreases s.len() - i,
{
    if i < 0 || i >= s.len() {
        None
    } else if s[i] == QUOTE {
        Some(i + 1)
    } else if s[i] == BACKSLASH {
        if i + 2 <= s.len() {
            skip_string(s, i + 2)
        } else {
            None
        }
    } else {
        skip_string(s, i + 1)
    }
}

/// End of the primitive token starting at `i`.
pub open spec fn skip_prim(s: Seq<u8>, i: int) -> int
    decreases s.len() - i,
{
    if 0 <= i < s.len() && is_prim_byte(s[i]) {
        skip_prim(s, i + 1)
    } else {
        i
    }
}

/// Position just past the JSON value that starts at or after `i`.
pub open spec fn skip_value(s: Seq<u8>, i: int) -> Option<int>
    decreases s.len() - i, 1int,
{
    if i < 0 || i >= s.len() {
        None
    } else if is_ws(s[i]) {
        skip_value(s, i + 1)
    } else if s[i] == QUOTE {
        skip_string(s, i + 1)
    } else if s[i] == LBRACKET {
        skip_elems(s, i + 1)
    } else if s[i] == LBRACE {
        skip_membs(s, i + 1)
    } else if is_prim_byte(s[i]) {
        Some(skip_prim(s, i))
    } else {
        None
    }
}

/// Inside an array, after `[` or `,`: past the closing bracket.
pub open spec fn skip_elems(s: Seq<u8>, i: int) -> Option<int>
    decreases s.len() - i, 3int,
{
    if i < 0 || i >= s.len() {
        None
    } else if is_ws(s[i]) {
        skip_elems(s, i + 1)
    } else if s[i] == RBRACKET {
        Some(i + 1)
    } else {
        match skip_value(s, i) {
            None => None,
            Some(j) => if j <= i || j > s.len() {
                None
            } else {
                skip_elems_tail(s, j)
            },
        }
    }
}

/// Inside an array, after an element: expects `,` or `]`.
pub open spec fn skip_elems_tail(s: Seq<u8>, i: int) -> Option<int>
    decreases s.len() - i, 2int,
{
    if i < 0 || i >= s.len() {
        None
    } else if is_ws(s[i]) {
        skip_elems_tail(s, i + 1)
    } else if s[i] == RBRACKET {
        Some(i + 1)
    } else if s[i] == COMMA {
        skip_elems(s, i + 1)
    } else {
        None
    }
}

/// Inside an object, after `{` or `,`: past the closing brace.
pub open spec fn skip_membs(s: Seq<u8>, i: int) -> Option<int>
    decreases s.len() - i, 3int,
{
    if i < 0 || i >= s.len() {
        None
    } else if is_ws(s[i]) {
        skip_membs(s, i + 1)
    } else if s[i] == RBRACE {
        Some(i + 1)
    } else if s[i] == QUOTE {
        match skip_string(s, i + 1) {
            None => None,
            Some(j) => if j <= i || j > s.len() {
                None
            } else {
                skip_membs_colon(s, j)
            },
        }
    } else {
        None
    }
}

/// Inside an object, between a member's name and its value.
pub open spec fn skip_membs_colon(s: Seq<u8>, i: int) -> Option<int>
    decreases s.len() - i, 2int,
{
    if i < 0 || i >= s.len() {
        None
    } else if is_ws(s[i]) {
        skip_membs_colon(s, i + 1)
    } else if s[i] == COLON {
        match skip_value(s, i + 1) {
            None => None,
            Some(j) => if j <= i + 1 || j > s.len() {
                None
            } else {
                skip_membs_tail(s, j)
            },
        }
    } else {
        None
    }
}

/// Inside an object, after a member: expects `,` or `}`.
pub open spec fn skip_membs_tail(s: Seq<u8>, i: int) -> Option<int>
    decreases s.len() - i, 2int,
{
    if i < 0 || i >= s.len() {
        None
    } else if is_ws(s[i]) {
        skip_membs_tail(s, i + 1)
    } else if s[i] == RBRACE {
        Some(i + 1)
    } else if s[i] == COMMA {
        skip_membs(s, i + 1)
    } else {
        None
    }
}

/// Span of the value of the first member whose raw name bytes equal `key`,
/// in the member list starting at `i` (after `{` or `,`).
pub open spec fn member_value(s: Seq<u8>, i: int, key: Seq<u8>) -> Option<(int, int)>
    decreases s.len() - i, 3int,
{
    if i < 0 || i >= s.len() {
        None
    } else if is_ws(s[i]) {
        member_value(s, i + 1, key)
    } else if s[i] == QUOTE {
        match skip_string(s, i + 1) {
            None => None,
            Some(j) => if j <= i + 1 || j > s.len() {
                None
            } else {
                member_after_key(s, j, key, s.subrange(i + 1, j - 1) == key)
            },
        }
    } else {
        None
    }
}

/// After a member's name: expects `:`, then the value.
pub open spec fn member_after_key(s: Seq<u8>, i: int, key: Seq<u8>, want: bool) -> Option<
    (int, int),
>
    decreases s.len() - i, 2int,
{
    if i < 0 || i >= s.len() {
        None
    } else if is_ws(s[i]) {
        member_after_key(s, i + 1, key, want)
    } else if s[i] == COLON {
        member_value_start(s, i + 1, key, want)
    } else {
        None
    }
}

/// At the first byte of a member's value, after leading whitespace: the
/// value's span when this is the wanted member, else onward past it.
pub open spec fn member_value_start(s: Seq<u8>, i: int, key: Seq<u8>, want: bool) -> Option<
    (int, int),
>
    decreases s.len() - i, 1int,
{
    if i < 0 || i >= s.len() {
        None
    } else if is_ws(s[i]) {
        member_value_start(s, i + 1, key, want)
    } else {
        match skip_value(s, i) {
            None => None,
            Some(j) => if j <= i || j > s.len() {
                None
            } else if want {
                Some((i, j))
            } else {
                member_tail(s, j, key)
            },
        }
    }
}

/// After a member that was not the wanted one: expects `,` or `}`.
pub open spec fn member_tail(s: Seq<u8>, i: int, key: Seq<u8>) -> Option<(int, int)>
    decreases s.len() - i, 0int,
{
    if i < 0 || i >= s.len() {
        None
    } else if is_ws(s[i]) {
        member_tail(s, i + 1, key)
    } else if s[i] == COMMA {
        member_value(s, i + 1, key)
    } else {
        None
    }
}

/// Span of the value of member `key` of the JSON object that `s` holds.
pub open spec fn object_member(s: Seq<u8>, key: Seq<u8>) -> Option<(int, int)> {
    let i = ws_end(s, 0);
    if 0 <= i < s.len() && s[i] == LBRACE {
        member_value(s, i + 1, key)
    } else {
        None
    }
}

/// Span of the first element of the JSON array that `s` holds.
pub open spec fn array_first(s: Seq<u8>) -> Option<(int, int)> {
    let i = ws_end(s, 0);
    if 0 <= i < s.len() && s[i] == LBRACKET {
        let j = ws_end(s, i + 1);
        if j < s.len() && s[j] == RBRACKET {
            None
        } else {
            match skip_value(s, j) {
                None => None,
                Some(k) => if k <= j {
                    None
                } else {
                    Some((j, k))
                },
            }
        }
    } else {
        None
    }
}

/// The content bytes of a string value span: the bytes between the quotes,
/// when no escape sequence stands among them; escapes are not interpreted.
pub open spec fn string_content(s: Seq<u8>) -> Option<Seq<u8>> {
    if s.len() >= 2 && s[0] == QUOTE && s[s.len() - 1] == QUOTE && (forall|k: int|
        1 <= k < s.len() - 1 ==> s[k] != QUOTE && s[k] != BACKSLASH) {
        Some(s.subrange(1, s.len() - 1))
    } else {
        None
    }
}

fn exec_is_ws(b: u8) -> (r: bool)
    ensures
        r == is_ws(b),
{
    b == 32 || b == 9 || b == 10 || b == 13
}

fn exec_is_prim(b: u8) -> (r: bool)
    ensures
        r == is_prim_byte(b),
{
    !(b == 32 || b == 9 || b == 10 || b == 13) && b != QUOTE && b != COMMA && b != COLON && b
        != LBRACKET && b != RBRACKET && b != LBRACE && b != RBRACE
}

fn scan_ws(s: &[u8], i: usize) -> (r: usize)
    requires
        i <= s@.len(),
    ensures
        r as int == ws_end(s@, i as int),
        i <= r <= s@.len(),
    decreases s@.len() - i,
{
    if i < s.len() && exec_is_ws(s[i]) {
        scan_ws(s, i + 1)
    } else {
        i
    }
}

fn scan_string(s: &[u8], i: usize) -> (r: Option<usize>)
    requires
        i <= s@.len(),
    ensures
        r is Some ==> skip_string(s@, i as int) == Some(r->Some_0 as int) && i < r->Some_0
            <= s@.len(),
        r is None ==> skip_string(s@, i as int) is None,
    decreases s@.len() - i,
{
    if i >= s.len() {
        None
    } else if s[i] == QUOTE {
        Some(i + 1)
    } else if s[i] == BACKSLASH {
        if i < s.len() - 1 {
            scan_string(s, i + 2)
        } else {
            None
        }
    } else {
        scan_string(s, i + 1)
    }
}

fn scan_prim(s: &[u8], i: usize) -> (r: usize)
    requires
        i <= s@.len(),
    ensures
        r as int == skip_prim(s@, i as int),
        i <= r <= s@.len(),
        i < s@.len() && is_prim_byte(s@[i as int]) ==> i < r,
    decreases s@.len() - i,
{
    if i < s.len() && exec_is_prim(s[i]) {
        scan_prim(s, i + 1)
    } else {
        i
    }
}

fn scan_value(s: &[u8], i: usize) -> (r: Option<usize>)
    requires
        i <= s@.len(),
    ensures
        r is Some ==> skip_value(s@, i as int) == Some(r->Some_0 as int) && i < r->Some_0
            <= s@.len(),
        r is None ==> skip_value(s@, i as int) is None,
    decreases s@.len() - i, 1int,
{
    if i >= s.len() {
        None
    } else if exec_is_ws(s[i]) {
        scan_value(s, i + 1)
    } else if s[i] == QUOTE {
        scan_string(s, i + 1)
    } else if s[i] == LBRACKET {
        scan_elems(s, i + 1)
    } else if s[i] == LBRACE {
        scan_membs(s, i + 1)
    } else if exec_is_prim(s[i]) {
        Some(scan_prim(s, i))
    } else {
        None
    }
}

fn scan_elems(s: &[u8], i: usize) -> (r: Option<usize>)
    requires
        i <= s@.len(),
    ensures
        r is Some ==> skip_elems(s@, i as int) == Some(r->Some_0 as int) && i <= r->Some_0
            <= s@.len(),
        r is None ==> skip_elems(s@, i as int) is None,
    decreases s@.len() - i, 3int,
{
    if i >= s.len() {
        None
    } else if exec_is_ws(s[i]) {
        scan_elems(s, i + 1)
    } else if s[i] == RBRACKET {
        Some(i + 1)
    } else {
        match scan_value(s, i) {
            None => None,
            Some(j) => scan_elems_tail(s, j),
        }
    }
}

fn scan_elems_tail(s: &[u8], i: usize) -> (r: Option<usize>)
    requires
        i <= s@.len(),
    ensures
        r is Some ==> skip_elems_tail(s@, i as int) == Some(r->Some_0 as int) && i <= r->Some_0
            <= s@.len(),
        r is None ==> skip_elems_tail(s@, i as int) is None,
    decreases s@.len() - i, 2int,
{
    if i >= s.len() {
        None
    } else if exec_is_ws(s[i]) {
        scan_elems_tail(s, i + 1)
    } else if s[i] == RBRACKET {
        Some(i + 1)
    } else if s[i] == COMMA {
        scan_elems(s, i + 1)
    } else {
        None
    }
}

fn scan_membs(s: &[u8], i: usize) -> (r: Option<usize>)
    requires
        i <= s@.len(),
    ensures
        r is Some ==> skip_membs(s@, i as int) == Some(r->Some_0 as int) && i <= r->Some_0
            <= s@.len(),
        r is None ==> skip_membs(s@, i as int) is None,
    decreases s@.len() - i, 3int,
{
    if i >= s.len() {
        None
    } else if exec_is_ws(s[i]) {
        scan_membs(s, i + 1)
    } else if s[i] == RBRACE {
        Some(i + 1)
    } else if s[i] == QUOTE {
        match scan_string(s, i + 1) {
            None => None,
            Some(j) => scan_membs_colon(s, j),
        }
    } else {
        None
    }
}

fn scan_membs_colon(s: &[u8], i: usize) -> (r: Option<usize>)
    requires
        i <= s@.len(),
    ensures
        r is Some ==> skip_membs_colon(s@, i as int) == Some(r->Some_0 as int) && i <= r->Some_0
            <= s@.len(),
        r is None ==> skip_membs_colon(s@, i as int) is None,
    decreases s@.len() - i, 2int,
{
    if i >= s.len() {
        None
    } else if exec_is_ws(s[i]) {
        scan_membs_colon(s, i + 1)
    } else if s[i] == COLON {
        match scan_value(s, i + 1) {
            None => None,
            Some(j) => scan_membs_tail(s, j),
        }
    } else {
        None
    }
}

fn scan_membs_tail(s: &[u8], i: usize) -> (r: Option<usize>)
    requires
        i <= s@.len(),
    ensures
        r is Some ==> skip_membs_tail(s@, i as int) == Some(r->Some_0 as int) && i <= r->Some_0
            <= s@.len(),
        r is None ==> skip_membs_tail(s@, i as int) is None,
    decreases s@.len() - i, 2int,
{
    if i >= s.len() {
        None
    } else if exec_is_ws(s[i]) {
        scan_membs_tail(s, i + 1)
    } else if s[i] == RBRACE {
        Some(i + 1)
    } else if s[i] == COMMA {
        scan_membs(s, i + 1)
    } else {
        None
    }
}

/// Bytes of `s` between `lo` and `hi`.
pub fn copy_range(s: &[u8], lo: usize, hi: usize) -> (r: Vec<u8>)
    requires
        lo <= hi <= s@.len(),
    ensures
        r@ == s@.subrange(lo as int, hi as int),
{
    let mut out: Vec<u8> = Vec::new();
    let mut j: usize = lo;
    while j < hi
        invariant
            lo <= j <= hi <= s@.len(),
            out@ == s@.subrange(lo as int, j as int),
        decreases hi - j,
    {
        out.push(s[j]);
        proof {
            assert(s@.subrange(lo as int, j + 1 as int) =~= s@.subrange(lo as int, j as int).push(
                s@[j as int],
            ));
        }
        j = j + 1;
    }
    out
}

fn seek_member(s: &[u8], i: usize, key: &[u8]) -> (r: Option<(usize, usize)>)
    requires
        i <= s@.len(),
    ensures
        r is Some ==> member_value(s@, i as int, key@) == Some(
            (r->Some_0.0 as int, r->Some_0.1 as int),
        ) && r->Some_0.0 < r->Some_0.1 <= s@.len(),
        r is None ==> member_value(s@, i as int, key@) is None,
    decreases s@.len() - i, 3int,
{
    if i >= s.len() {
        None
    } else if exec_is_ws(s[i]) {
        seek_member(s, i + 1, key)
    } else if s[i] == QUOTE {
        match scan_string(s, i + 1) {
            None => None,
            Some(j) => {
                let raw = copy_range(s, i + 1, j - 1);
                let want = bytes_eq(raw.as_slice(), key);
                seek_after_key(s, j, key, want)
            },
        }
    } else {
        None
    }
}

fn seek_after_key(s: &[u8], i: usize, key: &[u8], want: bool) -> (r: Option<(usize, usize)>)
    requires
        i <= s@.len(),
    ensures
        r is Some ==> member_after_key(s@, i as int, key@, want) == Some(
            (r->Some_0.0 as int, r->Some_0.1 as int),
        ) && r->Some_0.0 < r->Some_0.1 <= s@.len(),
        r is None ==> member_after_key(s@, i as int, key@, want) is None,
    decreases s@.len() - i, 2int,
{
    if i >= s.len() {
        None
    } else if exec_is_ws(s[i]) {
        seek_after_key(s, i + 1, key, want)
    } else if s[i] == COLON {
        seek_value_start(s, i + 1, key, want)
    } else {
        None
    }
}

fn seek_value_start(s: &[u8], i: usize, key: &[u8], want: bool) -> (r: Option<(usize, usize)>)
    requires
        i <= s@.len(),
    ensures
        r is Some ==> member_value_start(s@, i as int, key@, want) == Some(
            (r->Some_0.0 as int, r->Some_0.1 as int),
        ) && r->Some_0.0 < r->Some_0.1 <= s@.len(),
        r is None ==> member_value_start(s@, i as int, key@, want) is None,
    decreases s@.len() - i, 1int,
{
    if i >= s.len() {
        None
    } else if exec_is_ws(s[i]) {
        seek_value_start(s, i + 1, key, want)
    } else {
        match scan_value(s, i) {
            None => None,
            Some(j) => if want {
                Some((i, j))
            } else {
                seek_tail(s, j, key)
            },
        }
    }
}

fn seek_tail(s: &[u8], i: usize, key: &[u8]) -> (r: Option<(usize, usize)>)
    requires
        i <= s@.len(),
    ensures
        r is Some ==> member_tail(s@, i as int, key@) == Some(
            (r->Some_0.0 as int, r->Some_0.1 as int),
        ) && r->Some_0.0 < r->Some_0.1 <= s@.len(),
        r is None ==> member_tail(s@, i as int, key@) is None,
    decreases s@.len() - i, 0int,
{
    if i >= s.len() {
        None
    } else if exec_is_ws(s[i]) {
        seek_tail(s, i + 1, key)
    } else if s[i] == COMMA {
        seek_member(s, i + 1, key)
    } else {
        None
    }
}

/// Span of the value of member `key` of the JSON object text `s`.
pub fn find_object_member(s: &[u8], key: &[u8]) -> (r: Option<(usize, usize)>)
    ensures
        r is Some ==> object_member(s@, key@) == Some((r->Some_0.0 as int, r->Some_0.1 as int))
            && r->Some_0.0 < r->Some_0.1 <= s@.len(),
        r is None ==> object_member(s@, key@) is None,
{
    let i = scan_ws(s, 0);
    if i < s.len() && s[i] == LBRACE {
        seek_member(s, i + 1, key)
    } else {
        None
    }
}

/// Span of the first element of the JSON array text `s`.
pub fn find_array_first(s: &[u8]) -> (r: Option<(usize, usize)>)
    ensures
        r is Some ==> array_first(s@) == Some((r->Some_0.0 as int, r->Some_0.1 as int))
            && r->Some_0.0 < r->Some_0.1 <= s@.len(),
        r is None ==> array_first(s@) is None,
{
    let i = scan_ws(s, 0);
    if i < s.len() && s[i] == LBRACKET {
        let j = scan_ws(s, i + 1);
        if j < s.len() && s[j] == RBRACKET {
            None
        } else {
            match scan_value(s, j) {
                None => None,
                Some(k) => Some((j, k)),
            }
        }
    } else {
        None
    }
}

/// Content bytes of the string value span `s`, when it holds no escape.
pub fn read_string_content(s: &[u8]) -> (r: Option<Vec<u8>>)
    ensures
        r is Some ==> string_content(s@) == Some(r->Some_0@),
        r is None ==> string_content(s@) is None,
{
    if s.len() < 2 || s[0] != QUOTE || s[s.len() - 1] != QUOTE {
        return None;
    }
    let n = s.len();
    let mut k: usize = 1;
    while k < n - 1
        invariant
            1 <= k <= n - 1,
            n == s@.len(),
            2 <= n,
            forall|j: int| 1 <= j < k ==> s@[j] != QUOTE && s@[j] != BACKSLASH,
        decreases n - 1 - k,
    {
        if s[k] == QUOTE || s[k] == BACKSLASH {
            return None;
        }
        k = k + 1;
    }
    Some(copy_range(s, 1, n - 1))
}


/// Whether `s` is exactly one JSON value, with only whitespace around it.
pub open spec fn is_json_text(s: Seq<u8>) -> bool {
    match skip_value(s, 0) {
        Some(j) => ws_end(s, j) == s.len(),
        None => false,
    }
}

/// Checks that `s` is exactly one JSON value with only whitespace around it.
pub fn check_json_text(s: &[u8]) -> (r: bool)
    ensures
        r == is_json_text(s@),
{
    match scan_value(s, 0) {
        Some(j) => scan_ws(s, j) == s.len(),
        None => false,
    }
}

} // verus!
