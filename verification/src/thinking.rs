//! Splitting a model name into its base model and thinking (reasoning effort) level.
use vstd::prelude::*;

use crate::text::{chars_of, find_last, push_str, rfind_seq, slice_chars, string_from_chars};

verus! {

/// ASCII lower case of a character (other characters unchanged).
pub open spec fn ascii_lower(c: char) -> char {
    if 'A' <= c && c <= 'Z' {
        ((c as u32) + 32) as char
    } else {
        c
    }
}

/// ASCII upper case of a character (other characters unchanged).
pub open spec fn ascii_upper(c: char) -> char {
    if 'a' <= c && c <= 'z' {
        ((c as u32) - 32) as char
    } else {
        c
    }
}

/// A string with its ASCII letters in lower case.
pub open spec fn lower_seq(s: Seq<char>) -> Seq<char> {
    s.map_values(|c: char| ascii_lower(c))
}

fn lower_char(c: char) -> (r: char)
    ensures
        r == ascii_lower(c),
{
    if 'A' <= c && c <= 'Z' {
        ((c as u32) + 32) as u8 as char
    } else {
        c
    }
}

fn upper_char(c: char) -> (r: char)
    ensures
        r == ascii_upper(c),
{
    if 'a' <= c && c <= 'z' {
        ((c as u32) - 32) as u8 as char
    } else {
        c
    }
}

fn lower_chars(s: &[char]) -> (r: Vec<char>)
    ensures
        r@ == lower_seq(s@),
{
    let mut r: Vec<char> = Vec::new();
    let n = s.len();
    let mut i: usize = 0;
    while i < n
        invariant
            n == s@.len(),
            i <= n,
            r@ =~= lower_seq(s@.take(i as int)),
        decreases n - i,
    {
        r.push(lower_char(s[i]));
        i = i + 1;
    }
    assert(s@.take(n as int) =~= s@);
    r
}

/// An ASCII letter or digit, a dash or an underscore.
pub open spec fn is_tail_char(c: char) -> bool {
    ('a' <= c && c <= 'z') || ('A' <= c && c <= 'Z') || ('0' <= c && c <= '9') || c == '-' || c == '_'
}

/// An ASCII digit.
pub open spec fn is_digit(c: char) -> bool {
    '0' <= c && c <= '9'
}

/// The (base, tail) of a model name around the last (case-insensitive) occurrence of
/// `needle`, when a non-empty tail of letters, digits, dashes and underscores follows it.
pub open spec fn spec_split_suffix_tail(model: Seq<char>, needle: Seq<char>) -> Option<(Seq<char>, Seq<char>)> {
    match find_last(lower_seq(model), needle) {
        None => None,
        Some(idx) => {
            let tail_start = idx + needle.len();
            if tail_start >= model.len() {
                None
            } else if forall|i: int| tail_start <= i < model.len() ==> is_tail_char(#[trigger] model[i]) {
                Some((model.take(idx), model.skip(tail_start)))
            } else {
                None
            }
        },
    }
}

/// Splits a model name around the last (case-insensitive) `needle` followed by an effort tail.
pub fn split_suffix_tail(model: &str, needle: &str) -> (r: Option<(String, String)>)
    requires
        lower_seq(needle@) == needle@,
    ensures
        match r {
            Some(p) => spec_split_suffix_tail(model@, needle@) == Some((p.0@, p.1@)),
            None => spec_split_suffix_tail(model@, needle@) is None,
        },
{
    let v = chars_of(model);
    let lower = lower_chars(v.as_slice());
    let nv = chars_of(needle);
    let n = v.len();
    match rfind_seq(lower.as_slice(), nv.as_slice()) {
        None => None,
        Some(idx) => {
            let tail_start = idx + nv.len();
            if tail_start >= n {
                return None;
            }
            let mut i = tail_start;
            while i < n
                invariant
                    n == v@.len(),
                    v@ == model@,
                    find_last(lower_seq(model@), needle@) == Some(idx as int),
                    tail_start == idx + needle@.len(),
                    tail_start < n,
                    tail_start <= i <= n,
                    forall|q: int| tail_start <= q < i ==> is_tail_char(#[trigger] v@[q]),
                decreases n - i,
            {
                let c = v[i];
                if !(('a' <= c && c <= 'z') || ('A' <= c && c <= 'Z') || ('0' <= c && c <= '9') || c == '-'
                    || c == '_') {
                    assert(!is_tail_char(model@[i as int]));
                    return None;
                }
                i = i + 1;
            }
            let base = slice_chars(v.as_slice(), 0, idx);
            let tail = slice_chars(v.as_slice(), tail_start, n);
            assert(base@ =~= model@.take(idx as int));
            assert(tail@ =~= model@.skip(tail_start as int));
            Some((string_from_chars(base.as_slice()), string_from_chars(tail.as_slice())))
        },
    }
}

/// A dash or an underscore, which separate the parts of an effort tail.
pub open spec fn is_part_separator(c: char) -> bool {
    c == '-' || c == '_'
}

/// One part of an effort label: digits as they are, anything else capitalised (its first
/// character upper case, the rest lower case).
pub open spec fn format_part(p: Seq<char>) -> Seq<char> {
    if forall|i: int| 0 <= i < p.len() ==> is_digit(#[trigger] p[i]) {
        p
    } else {
        seq![ascii_upper(p[0])] + lower_seq(p.skip(1))
    }
}

/// Appends a formatted part to a label, separated by a space; empty parts are dropped.
pub open spec fn add_part(out: Seq<char>, part: Seq<char>) -> Seq<char> {
    if part.len() == 0 {
        out
    } else if out.len() == 0 {
        format_part(part)
    } else {
        out + " "@ + format_part(part)
    }
}

/// Reading `s` part by part: the label of the completed parts and the part being read.
pub open spec fn label_progress(s: Seq<char>) -> (Seq<char>, Seq<char>)
    decreases s.len(),
{
    if s.len() == 0 {
        (Seq::empty(), Seq::empty())
    } else {
        let (out, cur) = label_progress(s.drop_last());
        if is_part_separator(s.last()) {
            (add_part(out, cur), Seq::empty())
        } else {
            (out, cur.push(s.last()))
        }
    }
}

/// The label of an effort tail: its non-empty dash- or underscore-separated parts, each
/// formatted, joined with spaces.
pub open spec fn effort_label(tail: Seq<char>) -> Seq<char> {
    add_part(label_progress(tail).0, label_progress(tail).1)
}

fn format_part_exec(p: &Vec<char>) -> (r: Vec<char>)
    requires
        p@.len() > 0,
    ensures
        r@ == format_part(p@),
{
    let n = p.len();
    let mut i: usize = 0;
    let mut digits = true;
    while i < n
        invariant
            n == p@.len(),
            i <= n,
            digits == forall|q: int| 0 <= q < i ==> is_digit(#[trigger] p@[q]),
        decreases n - i,
    {
        if !('0' <= p[i] && p[i] <= '9') {
            digits = false;
        }
        i = i + 1;
    }
    if digits {
        return p.clone();
    }
    let mut r: Vec<char> = Vec::new();
    r.push(upper_char(p[0]));
    let mut j: usize = 1;
    while j < n
        invariant
            n == p@.len(),
            1 <= j <= n,
            r@ =~= seq![ascii_upper(p@[0])] + lower_seq(p@.skip(1).take(j - 1)),
        decreases n - j,
    {
        r.push(lower_char(p[j]));
        assert(p@.skip(1).take(j as int) =~= p@.skip(1).take(j - 1).push(p@[j as int]));
        j = j + 1;
    }
    assert(p@.skip(1).take(n - 1) =~= p@.skip(1));
    r
}

fn add_part_exec(out: &mut Vec<char>, part: &Vec<char>)
    ensures
        final(out)@ == add_part(old(out)@, part@),
{
    if part.len() == 0 {
        return;
    }
    let f = format_part_exec(part);
    proof {
        reveal_strlit(" ");
    }
    if out.len() > 0 {
        out.push(' ');
    }
    let n = f.len();
    let ghost start = out@;
    let mut i: usize = 0;
    while i < n
        invariant
            n == f@.len(),
            i <= n,
            out@ =~= start + f@.take(i as int),
        decreases n - i,
    {
        out.push(f[i]);
        i = i + 1;
    }
    assert(f@.take(n as int) =~= f@);
}

/// The label of an effort tail (`"max-v2"` reads `"Max V2"`).
pub fn format_effort_label(tail: &str) -> (r: String)
    ensures
        r@ == effort_label(tail@),
{
    let v = chars_of(tail);
    let n = v.len();
    let mut out: Vec<char> = Vec::new();
    let mut cur: Vec<char> = Vec::new();
    let mut i: usize = 0;
    while i < n
        invariant
            n == v@.len(),
            i <= n,
            (out@, cur@) == label_progress(v@.take(i as int)),
        decreases n - i,
    {
        assert(v@.take(i + 1).drop_last() =~= v@.take(i as int));
        let c = v[i];
        if c == '-' || c == '_' {
            add_part_exec(&mut out, &cur);
            cur = Vec::new();
        } else {
            cur.push(c);
        }
        i = i + 1;
    }
    assert(v@.take(n as int) =~= v@);
    add_part_exec(&mut out, &cur);
    string_from_chars(out.as_slice())
}

/// `s` ends with `suffix`.
pub open spec fn ends_with(s: Seq<char>, suffix: Seq<char>) -> bool {
    s.len() >= suffix.len() && s.skip(s.len() - suffix.len()) == suffix
}

/// The plain effort suffix a lower-cased model name ends with: its length and label.
pub open spec fn level_suffix(lower: Seq<char>) -> Option<(int, Seq<char>)> {
    if ends_with(lower, "-xhigh"@) || ends_with(lower, "_xhigh"@) {
        Some((6, "XHigh"@))
    } else if ends_with(lower, "-high"@) || ends_with(lower, "_high"@) {
        Some((5, "High"@))
    } else if ends_with(lower, "-medium"@) || ends_with(lower, "_medium"@) {
        Some((7, "Medium"@))
    } else if ends_with(lower, "-low"@) || ends_with(lower, "_low"@) {
        Some((4, "Low"@))
    } else {
        None
    }
}

/// The (base model, thinking level) of a model name, matched without regard to ASCII case:
/// a `-thinking-`/`_thinking_` infix followed by an effort tail gives `Thinking <effort>`;
/// a `-thinking`/`_thinking` suffix gives `Thinking`; an `xhigh`, `high`, `medium` or `low`
/// suffix (after `-` or `_`) gives that level; anything else is the `Default` level.
pub open spec fn spec_split_thinking_level(model: Seq<char>) -> (Seq<char>, Seq<char>) {
    let lower = lower_seq(model);
    let infix = match spec_split_suffix_tail(model, "-thinking-"@) {
        Some(p) => Some(p),
        None => spec_split_suffix_tail(model, "_thinking_"@),
    };
    match infix {
        Some((base, tail)) => (base, "Thinking "@ + effort_label(tail)),
        None => if ends_with(lower, "-thinking"@) || ends_with(lower, "_thinking"@) {
            (model.take(model.len() - 9), "Thinking"@)
        } else {
            match level_suffix(lower) {
                Some((k, label)) => (model.take(model.len() - k), label),
                None => (model, "Default"@),
            }
        },
    }
}

fn ends_with_exec(s: &[char], suffix: &str) -> (r: bool)
    ensures
        r == ends_with(s@, suffix@),
{
    let p = chars_of(suffix);
    let n = s.len();
    let k = p.len();
    if k > n {
        return false;
    }
    let tail = slice_chars(s, n - k, n);
    assert(tail@ =~= s@.skip(n - k));
    crate::text::chars_equal(tail.as_slice(), p.as_slice())
}

fn strip_last(v: &Vec<char>, k: usize) -> (r: String)
    requires
        k <= v@.len(),
    ensures
        r@ == v@.take(v@.len() - k),
{
    let n = v.len();
    let head = slice_chars(v.as_slice(), 0, n - k);
    assert(head@ =~= v@.take(n - k));
    string_from_chars(head.as_slice())
}

/// Splits a model name into its base model and thinking level (`"gpt-5.4-high"` gives
/// `("gpt-5.4", "High")`).
pub fn split_thinking_level(model: &str) -> (r: (String, String))
    ensures
        (r.0@, r.1@) == spec_split_thinking_level(model@),
{
    proof {
        reveal_strlit("-thinking-");
        reveal_strlit("_thinking_");
        assert(lower_seq("-thinking-"@) =~= "-thinking-"@);
        assert(lower_seq("_thinking_"@) =~= "_thinking_"@);
    }
    let infix = match split_suffix_tail(model, "-thinking-") {
        Some(p) => Some(p),
        None => split_suffix_tail(model, "_thinking_"),
    };
    match infix {
        Some((base, tail)) => {
            let mut label = "Thinking ".to_owned();
            let effort = format_effort_label(tail.as_str());
            push_str(&mut label, effort.as_str());
            return (base, label);
        },
        None => {},
    }
    let v = chars_of(model);
    let lower = lower_chars(v.as_slice());
    proof {
        reveal_strlit("-thinking");
        reveal_strlit("_thinking");
        reveal_strlit("-xhigh");
        reveal_strlit("_xhigh");
        reveal_strlit("-high");
        reveal_strlit("_high");
        reveal_strlit("-medium");
        reveal_strlit("_medium");
        reveal_strlit("-low");
        reveal_strlit("_low");
    }
    if ends_with_exec(lower.as_slice(), "-thinking") || ends_with_exec(lower.as_slice(), "_thinking") {
        return (strip_last(&v, 9), "Thinking".to_owned());
    }
    if ends_with_exec(lower.as_slice(), "-xhigh") || ends_with_exec(lower.as_slice(), "_xhigh") {
        return (strip_last(&v, 6), "XHigh".to_owned());
    }
    if ends_with_exec(lower.as_slice(), "-high") || ends_with_exec(lower.as_slice(), "_high") {
        return (strip_last(&v, 5), "High".to_owned());
    }
    if ends_with_exec(lower.as_slice(), "-medium") || ends_with_exec(lower.as_slice(), "_medium") {
        return (strip_last(&v, 7), "Medium".to_owned());
    }
    if ends_with_exec(lower.as_slice(), "-low") || ends_with_exec(lower.as_slice(), "_low") {
        return (strip_last(&v, 4), "Low".to_owned());
    }
    (model.to_owned(), "Default".to_owned())
}

} // verus!
