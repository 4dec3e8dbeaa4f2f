//! Codex account attribution: parsing ledger log bodies, hashing account ids
//! and tagging usage records with the account bucket of their conversation.
use vstd::prelude::*;

use sha2::{Digest, Sha256};
use vstd::utf8::{encode_utf8, is_char_boundary};

use crate::text::{chars_of, find_first, find_seq, slice_chars, str_equal, string_from_chars};

verus! {

/// An ASCII hexadecimal digit (`0-9`, `a-f`, `A-F`).
pub open spec fn is_hex_char(c: char) -> bool {
    ||| ('0' as int) <= (c as int) <= ('9' as int)
    ||| ('a' as int) <= (c as int) <= ('f' as int)
    ||| ('A' as int) <= (c as int) <= ('F' as int)
}

/// Positions 8, 13, 18 and 23 of a canonical UUID hold a dash.
pub open spec fn is_dash_position(i: int) -> bool {
    i == 8 || i == 13 || i == 18 || i == 23
}

/// A canonical 36-character UUID: hex digits with dashes at the four dash positions.
pub open spec fn is_uuid_chars(s: Seq<char>) -> bool {
    &&& s.len() == 36
    &&& forall|i: int|
        0 <= i < 36 ==> (if is_dash_position(i) {
            s[i] == '-'
        } else {
            is_hex_char(#[trigger] s[i])
        })
}

fn is_hex_char_exec(c: char) -> (r: bool)
    ensures
        r == is_hex_char(c),
{
    ('0' <= c && c <= '9') || ('a' <= c && c <= 'f') || ('A' <= c && c <= 'F')
}

/// Whether the 36 characters of `s` starting at `start` form a UUID.
fn is_uuid_window(s: &[char], start: usize) -> (r: bool)
    requires
        start + 36 <= s@.len(),
    ensures
        r == is_uuid_chars(s@.subrange(start as int, start + 36)),
{
    let ghost w = s@.subrange(start as int, start + 36);
    let n = s.len();
    let mut i: usize = 0;
    while i < 36
        invariant
            n == s@.len(),
            start + 36 <= s@.len(),
            w == s@.subrange(start as int, start + 36),
            i <= 36,
            forall|j: int|
                0 <= j < i ==> (if is_dash_position(j) {
                    w[j] == '-'
                } else {
                    is_hex_char(#[trigger] w[j])
                }),
        decreases 36 - i,
    {
        let c = s[start + i];
        assert(w[i as int] == c);
        if i == 8 || i == 13 || i == 18 || i == 23 {
            if c != '-' {
                return false;
            }
        } else if !is_hex_char_exec(c) {
            return false;
        }
        i = i + 1;
    }
    true
}

/// Whether `value` is a canonical UUID (36 characters, hex digits and dashes).
pub fn is_uuid(value: &str) -> (r: bool)
    ensures
        r == is_uuid_chars(value@),
{
    let v = chars_of(value);
    if v.len() != 36 {
        return false;
    }
    let r = is_uuid_window(v.as_slice(), 0);
    assert(v@.subrange(0, 36) =~= v@);
    r
}

/// A hex digit byte (`0-9`, `a-f`, `A-F`).
pub open spec fn is_hex_byte(x: u8) -> bool {
    ||| 48 <= x <= 57
    ||| 97 <= x <= 102
    ||| 65 <= x <= 70
}

/// 36 bytes spelling a canonical UUID: hex digits with dashes at the four dash positions.
pub open spec fn is_uuid_bytes(w: Seq<u8>) -> bool {
    &&& w.len() == 36
    &&& forall|i: int|
        0 <= i < 36 ==> (if is_dash_position(i) {
            w[i] == 45u8
        } else {
            is_hex_byte(#[trigger] w[i])
        })
}

/// The first byte offset at or after `t` where 36 bytes spell a UUID.
pub open spec fn uuid_start_from(b: Seq<u8>, t: int) -> Option<int>
    decreases b.len() + 1 - t,
{
    if t < 0 || t + 36 > b.len() {
        None
    } else if is_uuid_bytes(b.subrange(t, t + 36)) {
        Some(t)
    } else {
        uuid_start_from(b, t + 1)
    }
}

/// The scan from byte offset `t` only cuts 36-byte windows at character boundaries until
/// it finds a UUID (the scan slices the string there, which must not split a character).
pub open spec fn scan_safe_from(b: Seq<u8>, t: int) -> bool
    decreases b.len() + 1 - t,
{
    if t < 0 || t + 36 > b.len() {
        true
    } else {
        &&& is_char_boundary(b, t)
        &&& is_char_boundary(b, t + 36)
        &&& (is_uuid_bytes(b.subrange(t, t + 36)) || scan_safe_from(b, t + 1))
    }
}

/// The session ids whose UUID scan never splits a character.
pub open spec fn session_scan_safe(s: Seq<char>) -> bool {
    scan_safe_from(encode_utf8(s), 0)
}

/// The conversation id embedded in a session id: the first 36 bytes of its UTF-8 encoding
/// that spell a UUID, read as characters.
pub open spec fn session_conversation_id(s: Seq<char>) -> Option<Seq<char>> {
    let b = encode_utf8(s);
    match uuid_start_from(b, 0) {
        Some(t) => Some(b.subrange(t, t + 36).map_values(|x: u8| x as char)),
        None => None,
    }
}

fn is_hex_byte_exec(x: u8) -> (r: bool)
    ensures
        r == is_hex_byte(x),
{
    (48 <= x && x <= 57) || (97 <= x && x <= 102) || (65 <= x && x <= 70)
}

fn is_uuid_byte_window(b: &[u8], start: usize) -> (r: bool)
    requires
        start + 36 <= b@.len(),
    ensures
        r == is_uuid_bytes(b@.subrange(start as int, start + 36)),
{
    let ghost w = b@.subrange(start as int, start + 36);
    let n = b.len();
    let mut i: usize = 0;
    while i < 36
        invariant
            n == b@.len(),
            start + 36 <= b@.len(),
            w == b@.subrange(start as int, start + 36),
            i <= 36,
            forall|j: int|
                0 <= j < i ==> (if is_dash_position(j) {
                    w[j] == 45u8
                } else {
                    is_hex_byte(#[trigger] w[j])
                }),
        decreases 36 - i,
    {
        let x = b[start + i];
        assert(w[i as int] == x);
        if i == 8 || i == 13 || i == 18 || i == 23 {
            if x != 45u8 {
                return false;
            }
        } else if !is_hex_byte_exec(x) {
            return false;
        }
        i = i + 1;
    }
    true
}

fn ascii_window(b: &[u8], start: usize) -> (r: String)
    requires
        start + 36 <= b@.len(),
    ensures
        r@ == b@.subrange(start as int, start + 36).map_values(|x: u8| x as char),
{
    let mut r = String::new();
    let n = b.len();
    let mut i: usize = 0;
    while i < 36
        invariant
            n == b@.len(),
            start + 36 <= b@.len(),
            i <= 36,
            r@ == b@.subrange(start as int, start + i).map_values(|x: u8| x as char),
        decreases 36 - i,
    {
        let x = b[start + i];
        r.push(x as char);
        i = i + 1;
        assert(r@ =~= b@.subrange(start as int, start + i).map_values(|x: u8| x as char));
    }
    r
}

/// The conversation id of a Codex session id: the first UUID found in it, scanning 36-byte
/// windows of its UTF-8 encoding. The scan slices the string at each window, so session
/// ids on which a window would split a character are left out.
pub fn conversation_id_from_session_id(session_id: &str) -> (r: Option<String>)
    requires
        session_scan_safe(session_id@),
    ensures
        r matches Some(c) ==> session_conversation_id(session_id@) == Some(c@),
        r is None ==> session_conversation_id(session_id@) is None,
{
    let b = session_id.as_bytes();
    assert(b@ == encode_utf8(session_id@));
    if b.len() < 36 {
        return None;
    }
    let last = b.len() - 36;
    let mut i: usize = 0;
    loop
        invariant
            b@ == encode_utf8(session_id@),
            last == b@.len() - 36,
            i <= last,
            uuid_start_from(b@, 0) == uuid_start_from(b@, i as int),
        decreases last - i,
    {
        if is_uuid_byte_window(b, i) {
            return Some(ascii_window(b, i));
        }
        if i == last {
            assert(uuid_start_from(b@, i + 1) is None);
            return None;
        }
        i = i + 1;
    }
}

/// Whether the UUID scan of a session id never splits a character.
pub fn session_scan_is_safe(session_id: &str) -> (r: bool)
    ensures
        r == session_scan_safe(session_id@),
{
    let b = session_id.as_bytes();
    if b.len() < 36 {
        return true;
    }
    let n = b.len();
    let last = n - 36;
    let mut i: usize = last;
    let mut safe_after: bool = true;
    // Walk backwards so that each step knows whether the rest of the scan is safe.
    loop
        invariant
            b@ == encode_utf8(session_id@),
            n == b@.len(),
            last == b@.len() - 36,
            i <= last,
            safe_after == scan_safe_from(b@, i + 1),
        decreases i,
    {
        let here = session_id.is_char_boundary(i) && session_id.is_char_boundary(i + 36) && (
        is_uuid_byte_window(b, i) || safe_after);
        if i == 0 {
            return here;
        }
        safe_after = here;
        i = i - 1;
    }
}

/// Whether a character has the Unicode `White_Space` property (what `char::is_whitespace`
/// decides): tab through carriage return, space, next line, no-break space, ogham space
/// mark, the en quad through hair space, line and paragraph separators, narrow no-break
/// space, medium mathematical space and ideographic space.
pub open spec fn char_white_space(c: char) -> bool {
    let u = c as u32;
    ||| 0x09 <= u <= 0x0D
    ||| u == 0x20
    ||| u == 0x85
    ||| u == 0xA0
    ||| u == 0x1680
    ||| 0x2000 <= u <= 0x200A
    ||| u == 0x2028
    ||| u == 0x2029
    ||| u == 0x202F
    ||| u == 0x205F
    ||| u == 0x3000
}

/// Whether a character has the Unicode `White_Space` property.
pub fn is_whitespace_char(c: char) -> (r: bool)
    ensures
        r == char_white_space(c),
{
    let u = c as u32;
    (0x09 <= u && u <= 0x0D) || u == 0x20 || u == 0x85 || u == 0xA0 || u == 0x1680 || (0x2000 <= u
        && u <= 0x200A) || u == 0x2028 || u == 0x2029 || u == 0x202F || u == 0x205F || u == 0x3000
}

/// Characters that end a `conversation.id=` value.
pub open spec fn is_id_terminator(c: char) -> bool {
    char_white_space(c) || c == '"' || c == ',' || c == '}'
}

/// The first terminator position at or after `i`, or the length when there is none.
pub open spec fn terminator_from(s: Seq<char>, i: int) -> int
    decreases s.len() - i,
{
    if i < 0 || i >= s.len() {
        s.len() as int
    } else if is_id_terminator(s[i]) {
        i
    } else {
        terminator_from(s, i + 1)
    }
}

/// The text after the first occurrence of `needle` in `s`.
pub open spec fn after_first(s: Seq<char>, needle: Seq<char>) -> Option<Seq<char>> {
    match find_first(s, needle) {
        Some(i) => Some(s.skip(i + needle.len())),
        None => None,
    }
}

/// The UUID that follows the first `conversation.id=` in a log body.
pub open spec fn spec_extract_conversation_id(body: Seq<char>) -> Option<Seq<char>> {
    match after_first(body, "conversation.id="@) {
        Some(rest) => {
            let candidate = rest.take(terminator_from(rest, 0));
            if is_uuid_chars(candidate) {
                Some(candidate)
            } else {
                None
            }
        },
        None => None,
    }
}

/// The non-empty text between the first `needle` and the next double quote.
pub open spec fn spec_extract_quoted_after(body: Seq<char>, needle: Seq<char>) -> Option<
    Seq<char>,
> {
    match after_first(body, needle) {
        Some(rest) => match find_first(rest, seq!['"']) {
            Some(end) => if end == 0 {
                None
            } else {
                Some(rest.take(end))
            },
            None => None,
        },
        None => None,
    }
}

/// The needle that precedes a quoted account id in a ledger body.
pub open spec fn account_needle() -> Seq<char> {
    "user.account_id=\""@
}

/// A ledger body's conversation id and raw account id, when it carries both.
pub open spec fn spec_parse_codex_account_event(body: Seq<char>) -> Option<(Seq<char>, Seq<char>)> {
    match spec_extract_conversation_id(body) {
        Some(c) => match spec_extract_quoted_after(body, account_needle()) {
            Some(a) => Some((c, a)),
            None => None,
        },
        None => None,
    }
}

fn rest_after(v: &[char], needle: &[char]) -> (r: Option<Vec<char>>)
    ensures
        r matches Some(rest) ==> after_first(v@, needle@) == Some(rest@),
        r is None ==> after_first(v@, needle@) is None,
{
    match find_seq(v, needle) {
        Some(i) => {
            proof {
                crate::text::lemma_find_first_occurs(v@, needle@);
            }
            let n = v.len();
            let rest = slice_chars(v, i + needle.len(), n);
            assert(rest@ =~= v@.skip(i + needle@.len()));
            Some(rest)
        },
        None => None,
    }
}

fn extract_conversation_id_chars(body: &[char]) -> (r: Option<Vec<char>>)
    ensures
        r matches Some(c) ==> spec_extract_conversation_id(body@) == Some(c@),
        r is None ==> spec_extract_conversation_id(body@) is None,
{
    let needle = chars_of("conversation.id=");
    let rest = match rest_after(body, needle.as_slice()) {
        Some(rest) => rest,
        None => return None,
    };
    let n = rest.len();
    let mut end: usize = 0;
    while end < n
        invariant
            n == rest@.len(),
            end <= n,
            terminator_from(rest@, 0) == terminator_from(rest@, end as int),
        ensures
            end <= n,
            terminator_from(rest@, 0) == end as int,
        decreases n - end,
    {
        let c = rest[end];
        if is_whitespace_char(c) || c == '"' || c == ',' || c == '}' {
            break;
        }
        end = end + 1;
    }
    let candidate = slice_chars(rest.as_slice(), 0, end);
    assert(candidate@ =~= rest@.take(terminator_from(rest@, 0)));
    if candidate.len() == 36 && is_uuid_window(candidate.as_slice(), 0) {
        assert(candidate@.subrange(0, 36) =~= candidate@);
        Some(candidate)
    } else {
        proof {
            if candidate@.len() == 36 {
                assert(candidate@.subrange(0, 36) =~= candidate@);
            }
        }
        None
    }
}

fn extract_quoted_after_chars(body: &[char], needle: &[char]) -> (r: Option<Vec<char>>)
    ensures
        r matches Some(c) ==> spec_extract_quoted_after(body@, needle@) == Some(c@),
        r is None ==> spec_extract_quoted_after(body@, needle@) is None,
{
    let rest = match rest_after(body, needle) {
        Some(rest) => rest,
        None => return None,
    };
    let quote = chars_of("\"");
    proof {
        reveal_strlit("\"");
        assert(quote@ =~= seq!['"']);
    }
    match find_seq(rest.as_slice(), quote.as_slice()) {
        Some(end) => {
            if end == 0 {
                None
            } else {
                proof {
                    crate::text::lemma_find_first_occurs(rest@, quote@);
                }
                let value = slice_chars(rest.as_slice(), 0, end);
                assert(value@ =~= rest@.take(end as int));
                Some(value)
            }
        },
        None => None,
    }
}

/// The conversation id (a UUID after `conversation.id=`) of a ledger log body.
pub fn extract_conversation_id(body: &str) -> (r: Option<String>)
    ensures
        r matches Some(c) ==> spec_extract_conversation_id(body@) == Some(c@),
        r is None ==> spec_extract_conversation_id(body@) is None,
{
    let v = chars_of(body);
    match extract_conversation_id_chars(v.as_slice()) {
        Some(c) => Some(string_from_chars(c.as_slice())),
        None => None,
    }
}

/// The non-empty quoted value that follows the first `needle` in `body`.
pub fn extract_quoted_after(body: &str, needle: &str) -> (r: Option<String>)
    ensures
        r matches Some(c) ==> spec_extract_quoted_after(body@, needle@) == Some(c@),
        r is None ==> spec_extract_quoted_after(body@, needle@) is None,
{
    let v = chars_of(body);
    let p = chars_of(needle);
    match extract_quoted_after_chars(v.as_slice(), p.as_slice()) {
        Some(c) => Some(string_from_chars(c.as_slice())),
        None => None,
    }
}

/// The conversation id and raw account id that a ledger body carries.
pub fn parse_codex_account_event(body: &str) -> (r: Option<(String, String)>)
    ensures
        r matches Some(p) ==> spec_parse_codex_account_event(body@) == Some((p.0@, p.1@)),
        r is None ==> spec_parse_codex_account_event(body@) is None,
{
    let v = chars_of(body);
    let conversation = match extract_conversation_id_chars(v.as_slice()) {
        Some(c) => c,
        None => return None,
    };
    let needle = chars_of("user.account_id=\"");
    match extract_quoted_after_chars(v.as_slice(), needle.as_slice()) {
        Some(a) => Some(
            (string_from_chars(conversation.as_slice()), string_from_chars(a.as_slice())),
        ),
        None => None,
    }
}


/// The SHA-256 digest of a byte string.
pub uninterp spec fn sha256(data: Seq<u8>) -> Seq<u8>;

/// Calls `sha2::Sha256::digest`: the result is the named digest of the input bytes,
/// 32 bytes long (SHA-256's output size).
#[verifier::external_body]
fn sha256_digest(data: &[u8]) -> (r: Vec<u8>)
    ensures
        r@ == sha256(data@),
        r@.len() == 32,
{
    Sha256::digest(data).to_vec()
}

/// The character of a nibble value in lowercase hexadecimal (`0-9`, then from `a`).
pub open spec fn spec_hex_digit(nibble: int) -> char {
    if nibble <= 9 {
        (48 + nibble) as char
    } else {
        (87 + nibble) as char
    }
}

/// The lowercase hex digit of a nibble (values above 15 continue past `f`, as the
/// byte arithmetic `b'a' + (nibble - 10)` does, up to where it would overflow).
pub fn hex_digit(nibble: u8) -> (r: char)
    requires
        nibble <= 168,
    ensures
        r == spec_hex_digit(nibble as int),
        nibble < 16 ==> is_lower_hex_char(r),
{
    if nibble <= 9 {
        ((48u8 + nibble) as char)
    } else {
        ((87u8 + nibble) as char)
    }
}

/// The first six bytes of `bytes` in lowercase hex: twelve characters.
pub open spec fn hex_prefix(bytes: Seq<u8>) -> Seq<char> {
    Seq::new(
        12,
        |i: int|
            if i % 2 == 0 {
                spec_hex_digit((bytes[i / 2] / 16) as int)
            } else {
                spec_hex_digit((bytes[i / 2] % 16) as int)
            },
    )
}

/// The short account hash: the first 12 hex digits of the SHA-256 of the UTF-8 account id.
pub open spec fn spec_short_account_hash(account_id: Seq<char>) -> Seq<char> {
    hex_prefix(sha256(encode_utf8(account_id)))
}

/// A short, stable, anonymised label for an account id: 12 lowercase hex digits of its SHA-256.
pub fn short_account_hash(account_id: &str) -> (r: String)
    ensures
        r@ == spec_short_account_hash(account_id@),
        r@.len() == 12,
        forall|i: int| 0 <= i < 12 ==> is_lower_hex_char(#[trigger] r@[i]),
{
    let hash = sha256_digest(account_id.as_bytes());
    let mut out = String::new();
    let mut k: usize = 0;
    while k < 6
        invariant
            hash@.len() == 32,
            k <= 6,
            out@.len() == 2 * k,
            forall|i: int| 0 <= i < 2 * k ==> out@[i] == #[trigger] hex_prefix(hash@)[i],
            forall|i: int| 0 <= i < 2 * k ==> is_lower_hex_char(#[trigger] out@[i]),
        decreases 6 - k,
    {
        let byte = hash[k];
        let hi = byte >> 4;
        let lo = byte & 0x0f;
        assert(hi == byte / 16 && hi < 16) by (bit_vector)
            requires
                hi == byte >> 4,
        ;
        assert(lo == byte % 16 && lo < 16) by (bit_vector)
            requires
                lo == byte & 0x0f,
        ;
        out.push(hex_digit(hi));
        out.push(hex_digit(lo));
        assert(hex_prefix(hash@)[2 * k] == spec_hex_digit(hi as int));
        assert(hex_prefix(hash@)[2 * k + 1] == spec_hex_digit(lo as int));
        k = k + 1;
    }
    assert(out@ =~= hex_prefix(hash@));
    out
}


/// The bucket of a conversation whose ledger rows name more than one account.
pub open spec fn mixed_bucket() -> Seq<char> {
    "mixed"@
}

/// The bucket given to every Codex record when the ledger exists but cannot be read.
pub open spec fn ledger_error_bucket() -> Seq<char> {
    "ledger_error"@
}

/// The client name of Codex usage records.
pub open spec fn codex_client() -> Seq<char> {
    "codex"@
}

/// The view of an optional string.
pub open spec fn opt_view(o: Option<String>) -> Option<Seq<char>> {
    match o {
        Some(s) => Some(s@),
        None => None,
    }
}

/// A copy of an optional string.
pub fn clone_opt_string(o: &Option<String>) -> (r: Option<String>)
    ensures
        opt_view(r) == opt_view(*o),
{
    match o {
        Some(s) => Some(s.clone()),
        None => None,
    }
}

/// The value of the first entry at or after `i` whose key is `key`.
pub open spec fn lookup_from(entries: Seq<(String, String)>, key: Seq<char>, i: int) -> Option<
    Seq<char>,
>
    decreases entries.len() - i,
{
    if i < 0 || i >= entries.len() {
        None
    } else if entries[i].0@ == key {
        Some(entries[i].1@)
    } else {
        lookup_from(entries, key, i + 1)
    }
}

/// The value that an association list gives a key: that of its first entry with the key.
pub open spec fn lookup(entries: Seq<(String, String)>, key: Seq<char>) -> Option<Seq<char>> {
    lookup_from(entries, key, 0)
}

/// No two entries of an association list share a key.
pub open spec fn distinct_keys(entries: Seq<(String, String)>) -> bool {
    forall|a: int, b: int|
        0 <= a < b < entries.len() ==> #[trigger] entries[a].0@ != #[trigger] entries[b].0@
}

proof fn lemma_lookup_found(entries: Seq<(String, String)>, key: Seq<char>, i: int, g: int)
    requires
        0 <= i <= g < entries.len(),
        entries[g].0@ == key,
        forall|j: int| i <= j < g ==> (#[trigger] entries[j]).0@ != key,
    ensures
        lookup_from(entries, key, i) == Some(entries[g].1@),
    decreases g - i,
{
    if i < g {
        lemma_lookup_found(entries, key, i + 1, g);
    }
}

proof fn lemma_lookup_absent(entries: Seq<(String, String)>, key: Seq<char>, i: int)
    requires
        0 <= i,
        forall|j: int| i <= j < entries.len() ==> (#[trigger] entries[j]).0@ != key,
    ensures
        lookup_from(entries, key, i) is None,
    decreases entries.len() - i,
{
    if i < entries.len() {
        lemma_lookup_absent(entries, key, i + 1);
    }
}

/// In a list with distinct keys, the lookup of a key is the value of its one entry.
pub proof fn lemma_lookup_distinct(entries: Seq<(String, String)>, key: Seq<char>)
    requires
        distinct_keys(entries),
    ensures
        forall|g: int|
            0 <= g < entries.len() && (#[trigger] entries[g]).0@ == key ==> lookup(entries, key)
                == Some(entries[g].1@),
        (forall|g: int| 0 <= g < entries.len() ==> (#[trigger] entries[g]).0@ != key) ==> lookup(
            entries,
            key,
        ) is None,
{
    assert forall|g: int|
        0 <= g < entries.len() && (#[trigger] entries[g]).0@ == key implies lookup(entries, key)
        == Some(entries[g].1@) by {
        assert forall|j: int| 0 <= j < g implies (#[trigger] entries[j]).0@ != key by {
            assert(entries[j].0@ != entries[g].0@);
        }
        lemma_lookup_found(entries, key, 0, g);
    }
    if forall|g: int| 0 <= g < entries.len() ==> (#[trigger] entries[g]).0@ != key {
        lemma_lookup_absent(entries, key, 0);
    }
}

/// The value an association list gives a key, if any.
pub fn lookup_entry(entries: &Vec<(String, String)>, key: &String) -> (r: Option<String>)
    ensures
        opt_view(r) == lookup(entries@, key@),
{
    let n = entries.len();
    let mut i: usize = 0;
    while i < n
        invariant
            n == entries@.len(),
            i <= n,
            lookup(entries@, key@) == lookup_from(entries@, key@, i as int),
        decreases n - i,
    {
        if entries[i].0 == *key {
            return Some(entries[i].1.clone());
        }
        i = i + 1;
    }
    None
}

/// Account attribution of Codex conversations, read from the local Codex log ledger.
#[derive(Debug, Clone)]
pub struct CodexAccountLedger {
    /// Conversation id and account bucket (a short account hash, or `mixed`).
    pub conversations: Vec<(String, String)>,
    /// The ledger exists but could not be read.
    pub failed: bool,
}

impl CodexAccountLedger {
    /// The account bucket the ledger gives a conversation.
    pub open spec fn bucket_of(self, conversation: Seq<char>) -> Option<Seq<char>> {
        lookup(self.conversations@, conversation)
    }
}

impl Default for CodexAccountLedger {
    fn default() -> (r: Self)
        ensures
            r.conversations@.len() == 0,
            !r.failed,
    {
        CodexAccountLedger { conversations: Vec::new(), failed: false }
    }
}

/// The account bucket of key `k` over (conversation, account hash) events: none when no
/// event names `k`, the one hash when all its events agree, and `mixed` otherwise.
pub open spec fn account_bucket(events: Seq<(Seq<char>, Seq<char>)>, k: Seq<char>) -> Option<
    Seq<char>,
> {
    if !(exists|i: int| 0 <= i < events.len() && (#[trigger] events[i]).0 == k) {
        None
    } else if exists|i: int| uniform_at(events, k, i) {
        Some(events[choose|i: int| uniform_at(events, k, i)].1)
    } else {
        Some(mixed_bucket())
    }
}

/// Event `i` names `k`, and every event naming `k` carries the same hash as it.
pub open spec fn uniform_at(events: Seq<(Seq<char>, Seq<char>)>, k: Seq<char>, i: int) -> bool {
    &&& 0 <= i < events.len()
    &&& events[i].0 == k
    &&& forall|j: int|
        0 <= j < events.len() && (#[trigger] events[j]).0 == k ==> events[j].1 == events[i].1
}

/// The views of a list of string pairs.
pub open spec fn pairs_view(v: Seq<(String, String)>) -> Seq<(Seq<char>, Seq<char>)> {
    v.map_values(|e: (String, String)| (e.0@, e.1@))
}

fn find_group(groups: &Vec<(String, String, bool)>, key: &String) -> (r: Option<usize>)
    ensures
        r matches Some(g) ==> g < groups@.len() && groups@[g as int].0@ == key@,
        r is None ==> forall|g: int| 0 <= g < groups@.len() ==> (#[trigger] groups@[g]).0@ != key@,
{
    let n = groups.len();
    let mut i: usize = 0;
    while i < n
        invariant
            n == groups@.len(),
            i <= n,
            forall|g: int| 0 <= g < i ==> (#[trigger] groups@[g]).0@ != key@,
        decreases n - i,
    {
        if groups[i].0 == *key {
            return Some(i);
        }
        i = i + 1;
    }
    None
}

/// Invariant of the grouping loop after `i` events: distinct keys, each group holds the hash
/// of some event with its key, its flag says whether another hash was seen for that key, and
/// every event seen so far has its group.
pub open spec fn groups_inv(
    groups: Seq<(String, String, bool)>,
    ev: Seq<(Seq<char>, Seq<char>)>,
    i: int,
) -> bool {
    &&& 0 <= i <= ev.len()
    &&& forall|a: int, b: int|
        0 <= a < b < groups.len() ==> #[trigger] groups[a].0@ != #[trigger] groups[b].0@
    &&& forall|g: int|
        0 <= g < groups.len() ==> exists|j: int|
            0 <= j < i && (#[trigger] ev[j]).0 == (#[trigger] groups[g]).0@ && ev[j].1
                == groups[g].1@
    &&& forall|g: int|
        0 <= g < groups.len() ==> ((#[trigger] groups[g]).2 <==> exists|j: int|
            0 <= j < i && (#[trigger] ev[j]).0 == groups[g].0@ && ev[j].1 != groups[g].1@)
    &&& forall|j: int|
        0 <= j < i ==> exists|g: int|
            0 <= g < groups.len() && (#[trigger] groups[g]).0@ == (#[trigger] ev[j]).0
}

#[verifier::rlimit(50)]
fn add_new_group(
    groups: &mut Vec<(String, String, bool)>,
    key: &String,
    hash: &String,
    Ghost(ev): Ghost<Seq<(Seq<char>, Seq<char>)>>,
    Ghost(i): Ghost<int>,
)
    requires
        groups_inv(old(groups)@, ev, i),
        i < ev.len(),
        ev[i] == (key@, hash@),
        forall|g: int| 0 <= g < old(groups)@.len() ==> (#[trigger] old(groups)@[g]).0@ != key@,
    ensures
        groups_inv(final(groups)@, ev, i + 1),
{
    let ghost old_groups = groups@;
    groups.push((key.clone(), hash.clone(), false));
    proof {
        let last = old_groups.len() as int;
        assert(groups@[last].0@ == key@);
        assert forall|g: int|
            0 <= g < groups@.len() implies exists|j: int|
                0 <= j < i + 1 && (#[trigger] ev[j]).0 == (#[trigger] groups@[g]).0@ && ev[j].1
                    == groups@[g].1@ by {
            if g < last {
                assert(groups@[g] == old_groups[g]);
            } else {
                assert(ev[i].0 == groups@[g].0@);
            }
        }
        assert forall|g: int|
            0 <= g < groups@.len() implies ((#[trigger] groups@[g]).2 <==> exists|j: int|
                0 <= j < i + 1 && (#[trigger] ev[j]).0 == groups@[g].0@ && ev[j].1
                    != groups@[g].1@) by {
            if g < last {
                assert(groups@[g] == old_groups[g]);
                assert(ev[i].0 != groups@[g].0@);
            } else {
                assert forall|j: int|
                    0 <= j < i + 1 && (#[trigger] ev[j]).0 == groups@[g].0@ implies ev[j].1
                    == groups@[g].1@ by {
                    if j < i {
                        let w = choose|w: int|
                            0 <= w < old_groups.len() && (#[trigger] old_groups[w]).0@ == ev[j].0;
                        assert(old_groups[w].0@ != key@);
                    }
                }
            }
        }
        assert forall|j: int| 0 <= j < i + 1 implies exists|g: int|
            0 <= g < groups@.len() && (#[trigger] groups@[g]).0@ == (#[trigger] ev[j]).0 by {
            if j < i {
                let w = choose|w: int|
                    0 <= w < old_groups.len() && (#[trigger] old_groups[w]).0@ == ev[j].0;
                assert(groups@[w] == old_groups[w]);
            } else {
                assert(groups@[last].0@ == ev[j].0);
            }
        }
        assert forall|a: int, b: int|
            0 <= a < b < groups@.len() implies #[trigger] groups@[a].0@
            != #[trigger] groups@[b].0@ by {
            assert(groups@[a] == old_groups[a]);
            if b < last {
                assert(groups@[b] == old_groups[b]);
            }
        }
    }
}

#[verifier::rlimit(50)]
fn add_to_group(
    groups: &mut Vec<(String, String, bool)>,
    g: usize,
    hash: &String,
    Ghost(ev): Ghost<Seq<(Seq<char>, Seq<char>)>>,
    Ghost(i): Ghost<int>,
)
    requires
        groups_inv(old(groups)@, ev, i),
        i < ev.len(),
        g < old(groups)@.len(),
        ev[i] == (old(groups)@[g as int].0@, hash@),
    ensures
        groups_inv(final(groups)@, ev, i + 1),
{
    let ghost old_groups = groups@;
    if groups[g].1 != *hash {
        let k2 = groups[g].0.clone();
        let h2 = groups[g].1.clone();
        groups.set(g, (k2, h2, true));
    }
    proof {
        assert(groups@.len() == old_groups.len());
        assert forall|x: int| 0 <= x < groups@.len() && x != g implies groups@[x]
            == old_groups[x] by {}
        assert(groups@[g as int].0@ == old_groups[g as int].0@);
        assert(groups@[g as int].1@ == old_groups[g as int].1@);
        assert forall|x: int|
            0 <= x < groups@.len() implies exists|j: int|
                0 <= j < i + 1 && (#[trigger] ev[j]).0 == (#[trigger] groups@[x]).0@ && ev[j].1
                    == groups@[x].1@ by {
            let j = choose|j: int|
                0 <= j < i && (#[trigger] ev[j]).0 == (#[trigger] old_groups[x]).0@ && ev[j].1
                    == old_groups[x].1@;
            assert(ev[j].0 == groups@[x].0@);
        }
        assert forall|x: int|
            0 <= x < groups@.len() implies ((#[trigger] groups@[x]).2 <==> exists|j: int|
                0 <= j < i + 1 && (#[trigger] ev[j]).0 == groups@[x].0@ && ev[j].1
                    != groups@[x].1@) by {
            if x == g {
                if ev[i].1 != groups@[x].1@ {
                    assert(ev[i].0 == groups@[x].0@);
                }
            } else {
                assert(groups@[x] == old_groups[x]);
                assert(old_groups[x].0@ != old_groups[g as int].0@);
                assert(ev[i].0 != groups@[x].0@);
            }
        }
        assert forall|j: int| 0 <= j < i + 1 implies exists|x: int|
            0 <= x < groups@.len() && (#[trigger] groups@[x]).0@ == (#[trigger] ev[j]).0 by {
            if j < i {
                let w = choose|w: int|
                    0 <= w < old_groups.len() && (#[trigger] old_groups[w]).0@ == ev[j].0;
                assert(groups@[w].0@ == old_groups[w].0@);
            } else {
                assert(groups@[g as int].0@ == ev[j].0);
            }
        }
        assert forall|a: int, b: int|
            0 <= a < b < groups@.len() implies #[trigger] groups@[a].0@
            != #[trigger] groups@[b].0@ by {
            assert(old_groups[a].0@ != old_groups[b].0@);
        }
    }
}

/// Groups (conversation, account hash) events into one bucket per conversation.
pub fn group_account_events(events: &Vec<(String, String)>) -> (r: Vec<(String, String)>)
    ensures
        distinct_keys(r@),
        forall|k: Seq<char>| #[trigger] lookup(r@, k) == account_bucket(pairs_view(events@), k),
{
    let ghost ev = pairs_view(events@);
    let n = events.len();
    let mut groups: Vec<(String, String, bool)> = Vec::new();
    let mut i: usize = 0;
    while i < n
        invariant
            n == events@.len(),
            ev == pairs_view(events@),
            i <= n,
            groups_inv(groups@, ev, i as int),
        decreases n - i,
    {
        let key = &events[i].0;
        let hash = &events[i].1;
        assert(ev[i as int] == (key@, hash@));
        match find_group(&groups, key) {
            None => {
                add_new_group(&mut groups, key, hash, Ghost(ev), Ghost(i as int));
            },
            Some(g) => {
                add_to_group(&mut groups, g, hash, Ghost(ev), Ghost(i as int));
            },
        }
        i = i + 1;
    }
    let mut r: Vec<(String, String)> = Vec::new();
    let m = groups.len();
    let mut g: usize = 0;
    while g < m
        invariant
            m == groups@.len(),
            g <= m,
            r@.len() == g,
            forall|x: int| 0 <= x < g ==> (#[trigger] r@[x]).0@ == groups@[x].0@,
            forall|x: int|
                0 <= x < g ==> (#[trigger] r@[x]).1@ == (if groups@[x].2 {
                    mixed_bucket()
                } else {
                    groups@[x].1@
                }),
        decreases m - g,
    {
        let k = groups[g].0.clone();
        let v = if groups[g].2 {
            "mixed".to_owned()
        } else {
            groups[g].1.clone()
        };
        r.push((k, v));
        g = g + 1;
    }
    proof {
        assert forall|a: int, b: int|
            0 <= a < b < r@.len() implies #[trigger] r@[a].0@ != #[trigger] r@[b].0@ by {
            assert(groups@[a].0@ != groups@[b].0@);
        }
        assert forall|k: Seq<char>| #[trigger] lookup(r@, k) == account_bucket(ev, k) by {
            lemma_lookup_distinct(r@, k);
            if exists|x: int| 0 <= x < r@.len() && (#[trigger] r@[x]).0@ == k {
                let x = choose|x: int| 0 <= x < r@.len() && (#[trigger] r@[x]).0@ == k;
                let j = choose|j: int| 0 <= j < n && (#[trigger] ev[j]).0 == (#[trigger] groups@[x]).0@ && ev[j].1 == groups@[x].1@;
                assert(ev[j].0 == k);
                if groups@[x].2 {
                    let j2 = choose|j2: int| 0 <= j2 < n && (#[trigger] ev[j2]).0 == groups@[x].0@ && ev[j2].1 != groups@[x].1@;
                    if exists|u: int| uniform_at(ev, k, u) {
                        let u = choose|u: int| uniform_at(ev, k, u);
                        assert(ev[j].1 == ev[u].1);
                        assert(ev[j2].1 == ev[u].1);
                    }
                } else {
                    assert(uniform_at(ev, k, j));
                    let u = choose|u: int| uniform_at(ev, k, u);
                    assert(ev[j].1 == ev[u].1);
                }
            } else {
                assert forall|j: int| 0 <= j < ev.len() implies (#[trigger] ev[j]).0 != k by {
                    let x = choose|x: int| 0 <= x < groups@.len() && (#[trigger] groups@[x]).0@ == (#[trigger] ev[j]).0;
                    assert(r@[x].0@ == groups@[x].0@);
                }
            }
        }
    }
    r
}


/// One row of the Codex log table: its timestamp, log target, thread id and log body.
#[derive(Debug, Clone)]
pub struct LedgerRow {
    pub ts: i64,
    pub target: String,
    pub thread_id: Option<String>,
    pub body: Option<String>,
}

/// The log target under which Codex records account attribution.
pub open spec fn ledger_target() -> Seq<char> {
    "codex_otel.log_only"@
}

/// `ts` lies within the optional inclusive bounds.
pub open spec fn in_range(ts: i64, since: Option<i64>, until: Option<i64>) -> bool {
    &&& (since matches Some(s) ==> s <= ts)
    &&& (until matches Some(u) ==> ts <= u)
}

/// A row takes part in the ledger: it is an account-attribution log within the range.
pub open spec fn row_selected(row: LedgerRow, since: Option<i64>, until: Option<i64>) -> bool {
    row.target@ == ledger_target() && in_range(row.ts, since, until)
}

/// The (conversation, raw account id) a ledger row attests. A UUID thread id names the
/// conversation and the body the account; otherwise the body must carry both.
pub open spec fn spec_row_event(thread_id: Option<Seq<char>>, body: Option<Seq<char>>) -> Option<
    (Seq<char>, Seq<char>),
> {
    match thread_id {
        None => None,
        Some(t) => match body {
            None => None,
            Some(b) => if is_uuid_chars(t) {
                match spec_extract_quoted_after(b, account_needle()) {
                    Some(a) => Some((t, a)),
                    None => None,
                }
            } else {
                spec_parse_codex_account_event(b)
            },
        },
    }
}

/// The (conversation, short account hash) events of the selected rows, in order.
pub open spec fn ledger_events(rows: Seq<LedgerRow>, since: Option<i64>, until: Option<i64>) -> Seq<
    (Seq<char>, Seq<char>),
>
    decreases rows.len(),
{
    if rows.len() == 0 {
        Seq::empty()
    } else {
        let prev = ledger_events(rows.drop_last(), since, until);
        let last = rows.last();
        if row_selected(last, since, until) {
            match spec_row_event(opt_view(last.thread_id), opt_view(last.body)) {
                Some(e) => prev.push((e.0, spec_short_account_hash(e.1))),
                None => prev,
            }
        } else {
            prev
        }
    }
}

/// The (conversation, raw account id) that one ledger row attests, if any.
fn ledger_row_event(row: &LedgerRow) -> (r: Option<(String, String)>)
    ensures
        r matches Some(e) ==> spec_row_event(opt_view(row.thread_id), opt_view(row.body)) == Some(
            (e.0@, e.1@),
        ),
        r is None ==> spec_row_event(opt_view(row.thread_id), opt_view(row.body)) is None,
{
    let thread_id = match &row.thread_id {
        Some(t) => t,
        None => return None,
    };
    let body = match &row.body {
        Some(b) => b,
        None => return None,
    };
    if is_uuid(thread_id.as_str()) {
        match extract_quoted_after(body.as_str(), "user.account_id=\"") {
            Some(a) => Some((thread_id.clone(), a)),
            None => None,
        }
    } else {
        parse_codex_account_event(body.as_str())
    }
}

fn range_contains(ts: i64, since: Option<i64>, until: Option<i64>) -> (r: bool)
    ensures
        r == in_range(ts, since, until),
{
    let after = match since {
        Some(s) => s <= ts,
        None => true,
    };
    let before = match until {
        Some(u) => ts <= u,
        None => true,
    };
    after && before
}

fn is_selected(row: &LedgerRow, since: Option<i64>, until: Option<i64>) -> (r: bool)
    ensures
        r == row_selected(*row, since, until),
{
    proof {
        reveal_strlit("codex_otel.log_only");
    }
    str_equal(row.target.as_str(), "codex_otel.log_only") && range_contains(row.ts, since, until)
}

/// The ledger of a successful read: each conversation maps to its short account hash, or to
/// `mixed` when its selected rows name different accounts.
fn ledger_from_rows(rows: &Vec<LedgerRow>, since: Option<i64>, until: Option<i64>) -> (l:
    CodexAccountLedger)
    ensures
        !l.failed,
        distinct_keys(l.conversations@),
        forall|k: Seq<char>| #[trigger]
            l.bucket_of(k) == account_bucket(ledger_events(rows@, since, until), k),
{
    let mut events: Vec<(String, String)> = Vec::new();
    let n = rows.len();
    let mut i: usize = 0;
    while i < n
        invariant
            n == rows@.len(),
            i <= n,
            pairs_view(events@) == ledger_events(rows@.take(i as int), since, until),
        decreases n - i,
    {
        assert(rows@.take(i + 1).drop_last() =~= rows@.take(i as int));
        if is_selected(&rows[i], since, until) {
            match ledger_row_event(&rows[i]) {
                Some(e) => {
                    let hash = short_account_hash(e.1.as_str());
                    events.push((e.0, hash));
                    assert(pairs_view(events@) =~= ledger_events(rows@.take(i + 1), since, until));
                },
                None => {},
            }
        }
        i = i + 1;
    }
    assert(rows@.take(n as int) =~= rows@);
    CodexAccountLedger { conversations: group_account_events(&events), failed: false }
}

/// The ledger of the Codex log database within an optional timestamp range, given whether
/// the database exists and the rows read from it (`None` when the read failed). A missing
/// database gives an empty ledger, a failed read an empty ledger marked failed.
pub fn load_codex_account_ledger_with_range(
    database_present: bool,
    rows: Option<Vec<LedgerRow>>,
    since_ts: Option<i64>,
    until_ts: Option<i64>,
) -> (l: CodexAccountLedger)
    ensures
        !database_present ==> !l.failed && l.conversations@.len() == 0,
        database_present && rows is None ==> l.failed && l.conversations@.len() == 0,
        database_present && rows is Some ==> !l.failed && distinct_keys(l.conversations@)
            && forall|k: Seq<char>| #[trigger]
            l.bucket_of(k) == account_bucket(ledger_events(rows->0@, since_ts, until_ts), k),
{
    if !database_present {
        return CodexAccountLedger::default();
    }
    match rows {
        Some(rows) => ledger_from_rows(&rows, since_ts, until_ts),
        None => CodexAccountLedger { conversations: Vec::new(), failed: true },
    }
}

/// The ledger of the whole Codex log database (no timestamp range).
pub fn load_codex_account_ledger(database_present: bool, rows: Option<Vec<LedgerRow>>) -> (l:
    CodexAccountLedger)
    ensures
        !database_present ==> !l.failed && l.conversations@.len() == 0,
        database_present && rows is None ==> l.failed && l.conversations@.len() == 0,
        database_present && rows is Some ==> !l.failed && distinct_keys(l.conversations@)
            && forall|k: Seq<char>| #[trigger]
            l.bucket_of(k) == account_bucket(ledger_events(rows->0@, None, None), k),
{
    load_codex_account_ledger_with_range(database_present, rows, None, None)
}

/// `k` is one of the requested conversation ids.
pub open spec fn requested(ids: Seq<String>, k: Seq<char>) -> bool {
    exists|i: int| 0 <= i < ids.len() && (#[trigger] ids[i])@ == k
}

/// The (conversation, short account hash) events of the selected rows whose thread is one of
/// the requested conversations; the account is read from the body alone.
pub open spec fn conversation_events(
    ids: Seq<String>,
    rows: Seq<LedgerRow>,
    since: Option<i64>,
    until: Option<i64>,
) -> Seq<(Seq<char>, Seq<char>)>
    decreases rows.len(),
{
    if rows.len() == 0 {
        Seq::empty()
    } else {
        let prev = conversation_events(ids, rows.drop_last(), since, until);
        let last = rows.last();
        if row_selected(last, since, until) {
            match (opt_view(last.thread_id), opt_view(last.body)) {
                (Some(t), Some(b)) => if requested(ids, t) {
                    match spec_extract_quoted_after(b, account_needle()) {
                        Some(a) => prev.push((t, spec_short_account_hash(a))),
                        None => prev,
                    }
                } else {
                    prev
                },
                _ => prev,
            }
        } else {
            prev
        }
    }
}

fn is_requested(ids: &Vec<String>, k: &String) -> (r: bool)
    ensures
        r == requested(ids@, k@),
{
    let n = ids.len();
    let mut i: usize = 0;
    while i < n
        invariant
            n == ids@.len(),
            i <= n,
            forall|j: int| 0 <= j < i ==> (#[trigger] ids@[j])@ != k@,
        decreases n - i,
    {
        if str_equal(ids[i].as_str(), k.as_str()) {
            return true;
        }
        i = i + 1;
    }
    false
}

/// The ledger of the requested conversations, read from the Codex log database within an
/// optional timestamp range. Nothing is read when the database is absent or no conversation
/// is requested; a failed read gives an empty ledger marked failed.
pub fn load_codex_account_ledger_for_conversations(
    database_present: bool,
    conversation_ids: &Vec<String>,
    rows: Option<Vec<LedgerRow>>,
    since_ts: Option<i64>,
    until_ts: Option<i64>,
) -> (l: CodexAccountLedger)
    ensures
        !database_present || conversation_ids@.len() == 0 ==> !l.failed
            && l.conversations@.len() == 0,
        database_present && conversation_ids@.len() > 0 && rows is None ==> l.failed
            && l.conversations@.len() == 0,
        database_present && conversation_ids@.len() > 0 && rows is Some ==> !l.failed
            && distinct_keys(l.conversations@) && forall|k: Seq<char>| #[trigger]
            l.bucket_of(k) == account_bucket(
                conversation_events(conversation_ids@, rows->0@, since_ts, until_ts),
                k,
            ),
{
    if !database_present || conversation_ids.len() == 0 {
        return CodexAccountLedger::default();
    }
    let rows = match rows {
        Some(rows) => rows,
        None => return CodexAccountLedger { conversations: Vec::new(), failed: true },
    };
    let ghost ids = conversation_ids@;
    let mut events: Vec<(String, String)> = Vec::new();
    let n = rows.len();
    let mut i: usize = 0;
    while i < n
        invariant
            n == rows@.len(),
            i <= n,
            ids == conversation_ids@,
            pairs_view(events@) == conversation_events(ids, rows@.take(i as int), since_ts, until_ts),
        decreases n - i,
    {
        assert(rows@.take(i + 1).drop_last() =~= rows@.take(i as int));
        let row = &rows[i];
        if is_selected(row, since_ts, until_ts) {
            match (&row.thread_id, &row.body) {
                (Some(t), Some(body)) => {
                    if is_requested(conversation_ids, t) {
                        match extract_quoted_after(body.as_str(), "user.account_id=\"") {
                            Some(a) => {
                                let hash = short_account_hash(a.as_str());
                                events.push((t.clone(), hash));
                                assert(pairs_view(events@) =~= conversation_events(
                                    ids,
                                    rows@.take(i + 1),
                                    since_ts,
                                    until_ts,
                                ));
                            },
                            None => {},
                        }
                    }
                },
                _ => {},
            }
        }
        i = i + 1;
    }
    assert(rows@.take(n as int) =~= rows@);
    CodexAccountLedger { conversations: group_account_events(&events), failed: false }
}

/// The account bucket a usage record of session `session_id` gets from the ledger: the
/// ledger error bucket when the ledger failed, the conversation's bucket when the ledger
/// knows the conversation, and the record's existing bucket otherwise.
pub open spec fn ledger_attribution(
    session_id: Seq<char>,
    current: Option<Seq<char>>,
    ledger: CodexAccountLedger,
) -> Option<Seq<char>> {
    if ledger.failed {
        Some(ledger_error_bucket())
    } else {
        match session_conversation_id(session_id) {
            Some(c) => match ledger.bucket_of(c) {
                Some(b) => Some(b),
                None => current,
            },
            None => current,
        }
    }
}

fn attribution_for(session_id: &String, current: &Option<String>, ledger: &CodexAccountLedger) -> (r:
    Option<String>)
    requires
        !ledger.failed ==> session_scan_safe(session_id@),
    ensures
        opt_view(r) == ledger_attribution(session_id@, opt_view(*current), *ledger),
{
    if ledger.failed {
        return Some("ledger_error".to_owned());
    }
    match conversation_id_from_session_id(session_id.as_str()) {
        Some(c) => match lookup_entry(&ledger.conversations, &c) {
            Some(b) => Some(b),
            None => clone_opt_string(current),
        },
        None => clone_opt_string(current),
    }
}

/// The account fields of a usage message: its client, session and account bucket.
#[derive(Debug, Clone)]
pub struct MessageAccount {
    pub client: String,
    pub session_id: String,
    pub codex_account_hash: Option<String>,
}

/// The account fields of a Codex quota sample: its session and account bucket.
#[derive(Debug, Clone)]
pub struct QuotaSampleAccount {
    pub session_id: String,
    pub codex_account_hash: Option<String>,
}

/// Tags Codex messages with the account bucket of their conversation; other clients'
/// messages are left as they were.
pub fn apply_codex_account_ledger(messages: &mut Vec<MessageAccount>, ledger: &CodexAccountLedger)
    requires
        !ledger.failed ==> forall|i: int|
            0 <= i < old(messages)@.len() && (#[trigger] old(messages)@[i]).client@ == codex_client()
                ==> session_scan_safe(old(messages)@[i].session_id@),
    ensures
        final(messages)@.len() == old(messages)@.len(),
        forall|i: int|
            0 <= i < old(messages)@.len() ==> {
                let before = #[trigger] old(messages)@[i];
                let after = final(messages)@[i];
                &&& after.client@ == before.client@
                &&& after.session_id@ == before.session_id@
                &&& opt_view(after.codex_account_hash) == if before.client@ == codex_client() {
                    ledger_attribution(
                        before.session_id@,
                        opt_view(before.codex_account_hash),
                        *ledger,
                    )
                } else {
                    opt_view(before.codex_account_hash)
                }
            },
{
    let codex = "codex".to_owned();
    let n = messages.len();
    let mut i: usize = 0;
    while i < n
        invariant
            !ledger.failed ==> forall|j: int|
                0 <= j < old(messages)@.len() && (#[trigger] old(messages)@[j]).client@ == codex_client()
                    ==> session_scan_safe(old(messages)@[j].session_id@),
            codex@ == codex_client(),
            n == messages@.len(),
            n == old(messages)@.len(),
            i <= n,
            forall|j: int|
                i <= j < n ==> #[trigger] messages@[j] == old(messages)@[j],
            forall|j: int|
                0 <= j < i ==> {
                    let before = #[trigger] old(messages)@[j];
                    let after = messages@[j];
                    &&& after.client@ == before.client@
                    &&& after.session_id@ == before.session_id@
                    &&& opt_view(after.codex_account_hash) == if before.client@
                        == codex_client() {
                        ledger_attribution(
                            before.session_id@,
                            opt_view(before.codex_account_hash),
                            *ledger,
                        )
                    } else {
                        opt_view(before.codex_account_hash)
                    }
                },
        decreases n - i,
    {
        if messages[i].client == codex {
            let hash = attribution_for(
                &messages[i].session_id,
                &messages[i].codex_account_hash,
                ledger,
            );
            let updated = MessageAccount {
                client: messages[i].client.clone(),
                session_id: messages[i].session_id.clone(),
                codex_account_hash: hash,
            };
            messages.set(i, updated);
        }
        i = i + 1;
    }
}

/// Tags quota samples with the account bucket of their conversation.
pub fn apply_codex_account_ledger_to_quota_samples(
    samples: &mut Vec<QuotaSampleAccount>,
    ledger: &CodexAccountLedger,
)
    requires
        !ledger.failed ==> forall|i: int|
            0 <= i < old(samples)@.len() ==> session_scan_safe((#[trigger] old(samples)@[i]).session_id@),
    ensures
        final(samples)@.len() == old(samples)@.len(),
        forall|i: int|
            0 <= i < old(samples)@.len() ==> {
                let before = #[trigger] old(samples)@[i];
                let after = final(samples)@[i];
                &&& after.session_id@ == before.session_id@
                &&& opt_view(after.codex_account_hash) == ledger_attribution(
                    before.session_id@,
                    opt_view(before.codex_account_hash),
                    *ledger,
                )
            },
{
    let n = samples.len();
    let mut i: usize = 0;
    while i < n
        invariant
            !ledger.failed ==> forall|j: int|
                0 <= j < old(samples)@.len() ==> session_scan_safe((#[trigger] old(samples)@[j]).session_id@),
            n == samples@.len(),
            n == old(samples)@.len(),
            i <= n,
            forall|j: int| i <= j < n ==> #[trigger] samples@[j] == old(samples)@[j],
            forall|j: int|
                0 <= j < i ==> {
                    let before = #[trigger] old(samples)@[j];
                    let after = samples@[j];
                    &&& after.session_id@ == before.session_id@
                    &&& opt_view(after.codex_account_hash) == ledger_attribution(
                        before.session_id@,
                        opt_view(before.codex_account_hash),
                        *ledger,
                    )
                },
        decreases n - i,
    {
        let hash = attribution_for(&samples[i].session_id, &samples[i].codex_account_hash, ledger);
        let updated = QuotaSampleAccount {
            session_id: samples[i].session_id.clone(),
            codex_account_hash: hash,
        };
        samples.set(i, updated);
        i = i + 1;
    }
}

/// A session id that is itself a UUID is its own conversation id.
pub proof fn lemma_uuid_session_is_its_conversation(s: Seq<char>)
    requires
        is_uuid_chars(s),
    ensures
        session_conversation_id(s) == Some(s),
{
    let b = encode_utf8(s);
    assert(vstd::utf8::is_ascii_chars(s)) by {
        assert forall|i: int| 0 <= i < s.len() implies '\0' <= #[trigger] s[i] <= '\u{7f}' by {
            if !is_dash_position(i) {
                assert(is_hex_char(s[i]));
            }
        }
    }
    vstd::utf8::is_ascii_chars_encode_utf8(s);
    assert(b.subrange(0, 36) =~= b);
    assert(is_uuid_bytes(b)) by {
        assert forall|i: int| 0 <= i < 36 implies (if is_dash_position(i) {
            b[i] == 45u8
        } else {
            is_hex_byte(#[trigger] b[i])
        }) by {
            assert(s[i] as u8 == b[i]);
            if !is_dash_position(i) {
                assert(is_hex_char(s[i]));
            }
        }
    }
    assert(uuid_start_from(b, 0) == Some(0int));
    let m = b.map_values(|x: u8| x as char);
    assert(m =~= s) by {
        assert forall|i: int| 0 <= i < 36 implies #[trigger] m[i] == s[i] by {
            assert(s[i] as u8 == b[i]);
            assert('\0' <= s[i] <= '\u{7f}');
        }
    }
}

/// A conversation that no event names gets no account bucket.
pub proof fn lemma_unnamed_conversation_has_no_bucket(
    events: Seq<(Seq<char>, Seq<char>)>,
    k: Seq<char>,
)
    requires
        forall|i: int| 0 <= i < events.len() ==> (#[trigger] events[i]).0 != k,
    ensures
        account_bucket(events, k) is None,
{
}

/// A conversation whose events all carry one account hash is attributed to that hash.
pub proof fn lemma_single_account_bucket(
    events: Seq<(Seq<char>, Seq<char>)>,
    k: Seq<char>,
    h: Seq<char>,
)
    requires
        exists|i: int| 0 <= i < events.len() && (#[trigger] events[i]).0 == k,
        forall|i: int| 0 <= i < events.len() && (#[trigger] events[i]).0 == k ==> events[i].1 == h,
    ensures
        account_bucket(events, k) == Some(h),
{
    let i = choose|i: int| 0 <= i < events.len() && (#[trigger] events[i]).0 == k;
    assert(uniform_at(events, k, i));
    let j = choose|j: int| uniform_at(events, k, j);
    assert(events[j].1 == h);
}

/// A conversation whose events carry two different account hashes is attributed to the
/// `mixed` bucket.
pub proof fn lemma_conflicting_accounts_are_mixed(
    events: Seq<(Seq<char>, Seq<char>)>,
    k: Seq<char>,
    i: int,
    j: int,
)
    requires
        0 <= i < events.len(),
        0 <= j < events.len(),
        events[i].0 == k,
        events[j].0 == k,
        events[i].1 != events[j].1,
    ensures
        account_bucket(events, k) == Some(mixed_bucket()),
{
    assert(exists|x: int| 0 <= x < events.len() && (#[trigger] events[x]).0 == k) by {
        assert(events[i].0 == k);
    }
    assert forall|x: int| !uniform_at(events, k, x) by {
        if uniform_at(events, k, x) {
            assert(events[i].1 == events[x].1);
            assert(events[j].1 == events[x].1);
        }
    }
}

/// A failed ledger attributes every record to the ledger error bucket.
pub proof fn lemma_failed_ledger_marks_error(
    session_id: Seq<char>,
    current: Option<Seq<char>>,
    ledger: CodexAccountLedger,
)
    requires
        ledger.failed,
    ensures
        ledger_attribution(session_id, current, ledger) == Some(ledger_error_bucket()),
{
}

/// A record whose session id holds no conversation id keeps its bucket under a readable
/// ledger.
pub proof fn lemma_unattributable_session_unchanged(
    session_id: Seq<char>,
    current: Option<Seq<char>>,
    ledger: CodexAccountLedger,
)
    requires
        !ledger.failed,
        session_conversation_id(session_id) is None,
    ensures
        ledger_attribution(session_id, current, ledger) == current,
{
}

/// Applying a ledger a second time changes nothing: attribution is idempotent.
pub proof fn lemma_attribution_idempotent(
    session_id: Seq<char>,
    current: Option<Seq<char>>,
    ledger: CodexAccountLedger,
)
    ensures
        ledger_attribution(session_id, ledger_attribution(session_id, current, ledger), ledger)
            == ledger_attribution(session_id, current, ledger),
{
}

/// A lowercase hex digit (`0-9`, `a-f`).
pub open spec fn is_lower_hex_char(c: char) -> bool {
    ||| ('0' as int) <= (c as int) <= ('9' as int)
    ||| ('a' as int) <= (c as int) <= ('f' as int)
}

/// An account bucket as a ledger holds it: `mixed`, or twelve lowercase hex digits.
pub open spec fn is_bucket_value(b: Seq<char>) -> bool {
    ||| b == mixed_bucket()
    ||| b.len() == 12 && forall|i: int| 0 <= i < 12 ==> is_lower_hex_char(#[trigger] b[i])
}

proof fn lemma_hex_prefix_shape(bytes: Seq<u8>)
    ensures
        hex_prefix(bytes).len() == 12,
        forall|i: int| 0 <= i < 12 ==> is_lower_hex_char(#[trigger] hex_prefix(bytes)[i]),
{
    assert forall|i: int| 0 <= i < 12 implies is_lower_hex_char(#[trigger] hex_prefix(bytes)[i]) by {
        let b = bytes[i / 2];
        assert(b / 16 <= 15 && b % 16 <= 15);
    }
}

proof fn lemma_row_event_uuid(thread_id: Option<Seq<char>>, body: Option<Seq<char>>)
    ensures
        spec_row_event(thread_id, body) matches Some(e) ==> is_uuid_chars(e.0),
{
}

proof fn lemma_events_shape(rows: Seq<LedgerRow>, since: Option<i64>, until: Option<i64>)
    ensures
        forall|i: int| 0 <= i < ledger_events(rows, since, until).len() ==> {
            let e = #[trigger] ledger_events(rows, since, until)[i];
            is_uuid_chars(e.0) && is_bucket_value(e.1) && e.1 != mixed_bucket()
        },
    decreases rows.len(),
{
    reveal_strlit("mixed");
    if rows.len() > 0 {
        let r0 = rows.drop_last();
        lemma_events_shape(r0, since, until);
        let prev = ledger_events(r0, since, until);
        let ev = ledger_events(rows, since, until);
        let last = rows.last();
        lemma_row_event_uuid(opt_view(last.thread_id), opt_view(last.body));
        assert forall|i: int| 0 <= i < ev.len() implies {
            let e = #[trigger] ev[i];
            is_uuid_chars(e.0) && is_bucket_value(e.1) && e.1 != mixed_bucket()
        } by {
            if i < prev.len() {
                assert(ev[i] == prev[i]);
            } else {
                let e = spec_row_event(opt_view(last.thread_id), opt_view(last.body))->0;
                assert(ev[i] == (e.0, spec_short_account_hash(e.1)));
                lemma_hex_prefix_shape(sha256(encode_utf8(e.1)));
                assert(spec_short_account_hash(e.1).len() == 12);
                assert(mixed_bucket().len() == 5);
            }
        }
    }
}

/// `e` is one of the events `ev`.
pub open spec fn event_in(ev: Seq<(Seq<char>, Seq<char>)>, e: (Seq<char>, Seq<char>)) -> bool {
    exists|j: int| 0 <= j < ev.len() && ev[j] == e
}

proof fn lemma_range_events_within(rows: Seq<LedgerRow>, since: Option<i64>, until: Option<i64>)
    ensures
        forall|i: int| 0 <= i < ledger_events(rows, since, until).len() ==> event_in(
            ledger_events(rows, None, None),
            #[trigger] ledger_events(rows, since, until)[i],
        ),
    decreases rows.len(),
{
    if rows.len() > 0 {
        let r0 = rows.drop_last();
        lemma_range_events_within(r0, since, until);
        let p2 = ledger_events(r0, since, until);
        let p1 = ledger_events(r0, None, None);
        let e2 = ledger_events(rows, since, until);
        let e1 = ledger_events(rows, None, None);
        let last = rows.last();
        let ev = spec_row_event(opt_view(last.thread_id), opt_view(last.body));
        if row_selected(last, since, until) {
            assert(row_selected(last, None, None));
        }
        assert(e1.len() >= p1.len());
        assert forall|j: int| 0 <= j < p1.len() implies e1[j] == p1[j] by {}
        assert forall|i: int| 0 <= i < e2.len() implies event_in(e1, #[trigger] e2[i]) by {
            if i < p2.len() {
                assert(e2[i] == p2[i]);
                assert(event_in(p1, p2[i]));
                let j = choose|j: int| 0 <= j < p1.len() && p1[j] == p2[i];
                assert(e1[j] == p1[j]);
            } else {
                let e = ev->0;
                assert(e2[i] == (e.0, spec_short_account_hash(e.1)));
                assert(e1 == p1.push((e.0, spec_short_account_hash(e.1))));
                assert(e1[e1.len() - 1] == e2[i]);
            }
        }
    }
}

/// Reading the ledger within a range, from the same rows, names only conversations that the
/// whole ledger names; where the whole ledger gives a conversation an account (not `mixed`),
/// the ranged ledger gives it the same account; and every ledger names UUID conversations
/// with buckets of twelve lowercase hex digits or `mixed`.
pub proof fn lemma_ranged_ledger_within_whole(
    rows: Seq<LedgerRow>,
    since: Option<i64>,
    until: Option<i64>,
    whole: CodexAccountLedger,
    ranged: CodexAccountLedger,
    k: Seq<char>,
)
    requires
        forall|c: Seq<char>| #[trigger] whole.bucket_of(c) == account_bucket(ledger_events(rows, None, None), c),
        forall|c: Seq<char>| #[trigger] ranged.bucket_of(c) == account_bucket(ledger_events(rows, since, until), c),
    ensures
        ranged.bucket_of(k) is Some ==> whole.bucket_of(k) is Some,
        whole.bucket_of(k) matches Some(b) ==> (b != mixed_bucket() && ranged.bucket_of(k) is Some
            ==> ranged.bucket_of(k) == Some(b)),
        ranged.bucket_of(k) matches Some(b) ==> is_uuid_chars(k) && is_bucket_value(b),
        whole.bucket_of(k) matches Some(b) ==> is_uuid_chars(k) && is_bucket_value(b),
{
    let e1 = ledger_events(rows, None, None);
    let e2 = ledger_events(rows, since, until);
    assert(whole.bucket_of(k) == account_bucket(e1, k));
    assert(ranged.bucket_of(k) == account_bucket(e2, k));
    lemma_range_events_within(rows, since, until);
    lemma_events_shape(rows, since, until);
    lemma_events_shape(rows, None, None);
    if exists|i: int| 0 <= i < e2.len() && (#[trigger] e2[i]).0 == k {
        let i = choose|i: int| 0 <= i < e2.len() && (#[trigger] e2[i]).0 == k;
        assert(event_in(e1, e2[i]));
        let j = choose|j: int| 0 <= j < e1.len() && e1[j] == e2[i];
        assert(e1[j].0 == k);
        assert(is_uuid_chars(k)) by {
            assert(is_uuid_chars(e2[i].0));
        }
        if exists|x: int| uniform_at(e1, k, x) {
            let x = choose|x: int| uniform_at(e1, k, x);
            let b = e1[x].1;
            assert forall|y: int| 0 <= y < e2.len() && (#[trigger] e2[y]).0 == k implies e2[y].1 == b by {
                assert(event_in(e1, e2[y]));
                let z = choose|z: int| 0 <= z < e1.len() && e1[z] == e2[y];
                assert(e1[z].0 == k);
            }
            assert(uniform_at(e2, k, i));
            let w = choose|w: int| uniform_at(e2, k, w);
            assert(e2[w].1 == b);
        }
        if exists|x: int| uniform_at(e2, k, x) {
            let x = choose|x: int| uniform_at(e2, k, x);
            assert(is_bucket_value(e2[x].1));
        }
    }
    if exists|i: int| 0 <= i < e1.len() && (#[trigger] e1[i]).0 == k {
        let i = choose|i: int| 0 <= i < e1.len() && (#[trigger] e1[i]).0 == k;
        assert(is_uuid_chars(e1[i].0));
        if exists|x: int| uniform_at(e1, k, x) {
            let x = choose|x: int| uniform_at(e1, k, x);
            assert(is_bucket_value(e1[x].1));
        }
    }
    reveal_strlit("mixed");
}

} // verus!
