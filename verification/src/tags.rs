//! Tags and the JSON text columns in which string lists are stored.
use vstd::prelude::*;

use crate::text::{is_white_space, trim, trim_end_text, trim_start_text, trim_text};

verus! {

/// The character sequences of a list of strings.
pub open spec fn texts(v: Seq<String>) -> Seq<Seq<char>> {
    v.map_values(|s: String| s@)
}

/// Tag normalization: each tag trimmed, empty tags dropped, and only the first
/// occurrence of each trimmed tag kept, in input order.
pub open spec fn normalized(tags: Seq<Seq<char>>) -> Seq<Seq<char>>
    decreases tags.len(),
{
    if tags.len() == 0 {
        seq![]
    } else {
        let prev = normalized(tags.drop_last());
        let t = trim_text(tags.last());
        if t.len() == 0 || prev.contains(t) {
            prev
        } else {
            prev.push(t)
        }
    }
}

/// A list of tags in normal form: trimmed, non-empty, without repeats.
pub open spec fn is_normal_tag_list(tags: Seq<Seq<char>>) -> bool {
    &&& tags.no_duplicates()
    &&& forall|i: int| 0 <= i < tags.len() ==> (#[trigger] tags[i]).len() > 0
    &&& forall|i: int| 0 <= i < tags.len() ==> trim_text(#[trigger] tags[i]) == tags[i]
}

/// The tags of `tags`, normalized.
pub fn normalize_tags(tags: Vec<String>) -> (r: Vec<String>)
    ensures
        texts(r@) == normalized(texts(tags@)),
{
    let mut out: Vec<String> = Vec::new();
    let mut i: usize = 0;
    while i < tags.len()
        invariant
            i <= tags.len(),
            texts(out@) == normalized(texts(tags@.take(i as int))),
        decreases tags.len() - i,
    {
        let t = trim(tags[i].as_str());
        let ghost prev = texts(out@);
        let mut seen = false;
        let mut k: usize = 0;
        while k < out.len()
            invariant
                k <= out.len(),
                prev == texts(out@),
                seen == (exists|q: int| 0 <= q < k && prev[q] == t@),
            decreases out.len() - k,
        {
            if out[k] == t {
                assert(prev[k as int] == t@);
                seen = true;
            }
            k = k + 1;
        }
        proof {
            assert(texts(tags@.take(i + 1)).drop_last() =~= texts(tags@.take(i as int)));
            assert(texts(tags@.take(i + 1)).last() == tags@[i as int]@);
            if seen {
                let q = choose|q: int| 0 <= q < k && prev[q] == t@;
                assert(prev.contains(t@));
            } else {
                assert(!prev.contains(t@));
            }
        }
        if t.unicode_len() != 0 && !seen {
            out.push(t);
            assert(texts(out@) =~= prev.push(t@));
        }
        i = i + 1;
    }
    assert(tags@.take(tags.len() as int) =~= tags@);
    out
}

/// Trimming is idempotent.
pub proof fn lemma_trim_idempotent(s: Seq<char>)
    ensures
        trim_text(trim_text(s)) == trim_text(s),
{
    lemma_trim_start_first(s);
    let u = trim_start_text(s);
    lemma_trim_end_prefix(u);
    let w = trim_end_text(u);
    lemma_trim_end_last(u);
    if w.len() > 0 {
        assert(w[0] == u[0]);
    }
    assert(trim_start_text(w) == w);
    lemma_trim_end_last(w);
    lemma_trim_end_fixed(w);
}

proof fn lemma_trim_start_first(s: Seq<char>)
    ensures
        trim_start_text(s).len() == 0 || !is_white_space(trim_start_text(s)[0]),
    decreases s.len(),
{
    if s.len() > 0 && is_white_space(s[0]) {
        lemma_trim_start_first(s.drop_first());
    }
}

proof fn lemma_trim_end_last(s: Seq<char>)
    ensures
        trim_end_text(s).len() == 0 || !is_white_space(trim_end_text(s).last()),
    decreases s.len(),
{
    if s.len() > 0 && is_white_space(s.last()) {
        lemma_trim_end_last(s.drop_last());
    }
}

proof fn lemma_trim_end_prefix(s: Seq<char>)
    ensures
        trim_end_text(s).len() <= s.len(),
        trim_end_text(s) == s.take(trim_end_text(s).len() as int),
    decreases s.len(),
{
    if s.len() > 0 && is_white_space(s.last()) {
        lemma_trim_end_prefix(s.drop_last());
        assert(s.drop_last().take(trim_end_text(s).len() as int) =~= s.take(
            trim_end_text(s).len() as int,
        ));
    } else {
        assert(s.take(s.len() as int) =~= s);
    }
}

proof fn lemma_trim_end_fixed(s: Seq<char>)
    requires
        s.len() == 0 || !is_white_space(s.last()),
    ensures
        trim_end_text(s) == s,
{
}

/// A list in normal form is its own normalization.
pub proof fn lemma_normalized_of_normal(tags: Seq<Seq<char>>)
    requires
        is_normal_tag_list(tags),
    ensures
        normalized(tags) == tags,
    decreases tags.len(),
{
    if tags.len() > 0 {
        let init = tags.drop_last();
        assert(is_normal_tag_list(init)) by {
            assert forall|i: int, j: int| 0 <= i < init.len() && 0 <= j < init.len() && i != j
                implies init[i] != init[j] by {
                assert(init[i] == tags[i] && init[j] == tags[j]);
            }
            assert forall|i: int| 0 <= i < init.len() implies (#[trigger] init[i]).len() > 0
                && trim_text(init[i]) == init[i] by {
                assert(init[i] == tags[i]);
            }
        }
        lemma_normalized_of_normal(init);
        let t = tags.last();
        assert(trim_text(t) == t);
        assert(!init.contains(t)) by {
            if init.contains(t) {
                let k = choose|k: int| 0 <= k < init.len() && init[k] == t;
                assert(tags[k] == tags[tags.len() - 1]);
            }
        }
        assert(init.push(t) =~= tags);
    }
}

/// Normalized tag lists are in normal form.
pub proof fn lemma_normalized_is_normal(tags: Seq<Seq<char>>)
    ensures
        is_normal_tag_list(normalized(tags)),
    decreases tags.len(),
{
    if tags.len() > 0 {
        lemma_normalized_is_normal(tags.drop_last());
        let prev = normalized(tags.drop_last());
        let t = trim_text(tags.last());
        if !(t.len() == 0 || prev.contains(t)) {
            lemma_trim_idempotent(tags.last());
            let r = prev.push(t);
            assert forall|i: int| 0 <= i < r.len() implies (#[trigger] r[i]).len() > 0
                && trim_text(r[i]) == r[i] by {
                if i < prev.len() {
                    assert(r[i] == prev[i]);
                }
            }
            assert forall|i: int, j: int| 0 <= i < r.len() && 0 <= j < r.len() && i != j
                implies r[i] != r[j] by {
                if i < prev.len() && j < prev.len() {
                    assert(r[i] == prev[i] && r[j] == prev[j]);
                } else if i < prev.len() {
                    assert(r[i] == prev[i]);
                    assert(prev.contains(prev[i]));
                } else {
                    assert(r[j] == prev[j]);
                    assert(prev.contains(prev[j]));
                }
            }
        }
    }
}

/// Normalizing tags twice gives the same list as normalizing them once.
pub proof fn lemma_normalize_idempotent(tags: Seq<Seq<char>>)
    ensures
        normalized(normalized(tags)) == normalized(tags),
{
    lemma_normalized_is_normal(tags);
    lemma_normalized_of_normal(normalized(tags));
}

/// A normalized list holds exactly the non-empty trimmed input tags.
pub proof fn lemma_normalized_members(tags: Seq<Seq<char>>, t: Seq<char>)
    ensures
        normalized(tags).contains(t) <==> (t.len() > 0 && exists|i: int|
            0 <= i < tags.len() && trim_text(#[trigger] tags[i]) == t),
    decreases tags.len(),
{
    if tags.len() > 0 {
        let init = tags.drop_last();
        lemma_normalized_members(init, t);
        let prev = normalized(init);
        let last = trim_text(tags.last());
        if normalized(tags).contains(t) {
            if prev.contains(t) {
                let i = choose|i: int| 0 <= i < init.len() && trim_text(init[i]) == t;
                assert(tags[i] == init[i]);
            } else {
                assert(normalized(tags) == prev.push(last));
                let k = choose|k: int| 0 <= k < prev.push(last).len() && prev.push(last)[k] == t;
                if k < prev.len() {
                    assert(prev.contains(t));
                }
                assert(trim_text(tags[tags.len() - 1]) == t);
            }
        }
        if t.len() > 0 && exists|i: int| 0 <= i < tags.len() && trim_text(#[trigger] tags[i]) == t {
            let i = choose|i: int| 0 <= i < tags.len() && trim_text(#[trigger] tags[i]) == t;
            if i < tags.len() - 1 {
                assert(init[i] == tags[i]);
                assert(prev.contains(t));
                if !(last.len() == 0 || prev.contains(last)) {
                    let k = choose|k: int| 0 <= k < prev.len() && prev[k] == t;
                    assert(prev.push(last)[k] == t);
                }
            } else {
                if prev.contains(t) {
                    if !(last.len() == 0 || prev.contains(last)) {
                        let k = choose|k: int| 0 <= k < prev.len() && prev[k] == t;
                        assert(prev.push(last)[k] == t);
                    }
                } else {
                    assert(prev.push(last)[prev.len() as int] == t);
                }
            }
        }
    } else {
        assert(normalized(tags) =~= Seq::<Seq<char>>::empty());
    }
}

/// The lowercase hexadecimal digit of `n` (below 16).
pub open spec fn hex_digit(n: int) -> char {
    "0123456789abcdef"@[n]
}

/// How `serde_json` writes one character inside a string literal: a quote and a backslash
/// are escaped with a backslash, backspace, form feed, line feed, carriage return and tab use
/// their short escapes, the other control characters below U+0020 become `\u00XX` with
/// lowercase hexadecimal digits, and every other character is written as it is.
pub open spec fn json_escape(c: char) -> Seq<char> {
    if c == '"' {
        seq!['\\', '"']
    } else if c == '\\' {
        seq!['\\', '\\']
    } else if c == '\u{8}' {
        seq!['\\', 'b']
    } else if c == '\u{c}' {
        seq!['\\', 'f']
    } else if c == '\n' {
        seq!['\\', 'n']
    } else if c == '\r' {
        seq!['\\', 'r']
    } else if c == '\t' {
        seq!['\\', 't']
    } else if (c as u32) < 0x20 {
        seq!['\\', 'u', '0', '0', hex_digit((c as int) / 16), hex_digit((c as int) % 16)]
    } else {
        seq![c]
    }
}

/// The escaped characters of `s`.
pub open spec fn json_escaped(s: Seq<char>) -> Seq<char>
    decreases s.len(),
{
    if s.len() == 0 {
        seq![]
    } else {
        json_escaped(s.drop_last()) + json_escape(s.last())
    }
}

/// The JSON string literal of `s`.
pub open spec fn json_string(s: Seq<char>) -> Seq<char> {
    seq!['"'] + json_escaped(s) + seq!['"']
}

/// The string literals of `items`, separated by commas.
pub open spec fn json_items(items: Seq<Seq<char>>) -> Seq<char>
    decreases items.len(),
{
    if items.len() == 0 {
        seq![]
    } else if items.len() == 1 {
        json_string(items[0])
    } else {
        json_items(items.drop_last()) + seq![','] + json_string(items.last())
    }
}

/// What `serde_json::to_string` writes for a list of strings: the compact JSON array of their
/// string literals.
pub open spec fn json_list_text(items: Seq<Seq<char>>) -> Seq<char> {
    seq!['['] + json_items(items) + seq![']']
}

/// What `serde_json::from_str::<Vec<String>>` reads from a text: the list when the text is a
/// JSON array of strings, nothing otherwise.
pub uninterp spec fn strings_of_json_text(text: Seq<char>) -> Option<Seq<Seq<char>>>;

#[verifier::external_type_specification]
#[verifier::external_body]
pub struct ExJsonError(serde_json::Error);

/// `serde_json::to_string` on a list of strings. It always succeeds: serialising strings
/// into the in-memory writer has no error case (errors come only from failing `Serialize`
/// impls and non-string map keys). The contract states the text it writes (the compact array
/// of escaped string literals, `json_list_text`), and that `serde_json::from_str::<Vec<String>>`
/// reads that text back as the same list.
#[verifier::external_body]
fn json_encode_strings(items: &Vec<String>) -> (r: Result<String, serde_json::Error>)
    ensures
        r is Ok,
        match r {
            Ok(s) => json_list_text(texts(items@)) == s@
                && strings_of_json_text(s@) == Some(texts(items@)),
            Err(_) => false,
        },
{
    serde_json::to_string(items)
}

/// `serde_json::from_str::<Vec<String>>`, with the error dropped. The contract ties the result
/// to the named decoding of the text.
#[verifier::external_body]
fn json_decode_strings(text: &str) -> (r: Option<Vec<String>>)
    ensures
        match r {
            Some(v) => strings_of_json_text(text@) == Some(texts(v@)),
            None => strings_of_json_text(text@) is None,
        },
{
    serde_json::from_str::<Vec<String>>(text).ok()
}

/// The message of a `serde_json::Error` (its `Display` text); nothing is stated of it.
#[verifier::external_body]
fn json_error_text(e: &serde_json::Error) -> String {
    e.to_string()
}

/// Decodes a JSON list of strings, if the text holds one.
pub fn decode_list(text: &str) -> (r: Option<Vec<String>>)
    ensures
        match r {
            Some(v) => strings_of_json_text(text@) == Some(texts(v@)),
            None => strings_of_json_text(text@) is None,
        },
{
    json_decode_strings(text)
}

/// The list stored in a JSON column, or the empty list when the column does not hold one.
pub open spec fn stored_list(text: Seq<char>) -> Seq<Seq<char>> {
    match strings_of_json_text(text) {
        Some(v) => v,
        None => seq![],
    }
}

/// The tags stored in a JSON column, normalized; the empty list when the column does not hold
/// a list.
pub open spec fn stored_tags(text: Seq<char>) -> Seq<Seq<char>> {
    match strings_of_json_text(text) {
        Some(v) => normalized(v),
        None => seq![],
    }
}

/// Reads a JSON list column.
pub fn json_list(value: String) -> (r: Vec<String>)
    ensures
        texts(r@) == stored_list(value@),
{
    match json_decode_strings(value.as_str()) {
        Some(v) => v,
        None => {
            let r: Vec<String> = Vec::new();
            assert(texts(r@) =~= Seq::<Seq<char>>::empty());
            r
        },
    }
}

/// Reads a JSON tag column and normalizes the tags.
pub fn json_tags(value: String) -> (r: Vec<String>)
    ensures
        texts(r@) == stored_tags(value@),
{
    match json_decode_strings(value.as_str()) {
        Some(v) => normalize_tags(v),
        None => {
            let r: Vec<String> = Vec::new();
            assert(texts(r@) =~= Seq::<Seq<char>>::empty());
            r
        },
    }
}

/// Encodes a list of strings as a JSON column (see `json_list_text`); encoding a list of
/// strings does not fail, and the text reads back as the same list.
pub fn encode_list(items: &Vec<String>) -> (r: Result<String, String>)
    ensures
        r is Ok,
        r matches Ok(s) ==> json_list_text(texts(items@)) == s@,
        r matches Ok(s) ==> stored_list(s@) == texts(items@),
        r matches Ok(s) ==> strings_of_json_text(s@) == Some(texts(items@)),
{
    match json_encode_strings(items) {
        Ok(s) => Ok(s),
        Err(e) => Err(json_error_text(&e)),
    }
}

/// Normalizes tags and encodes them as a JSON column.
pub fn encode_tags(tags: Vec<String>) -> (r: Result<String, String>)
    ensures
        r is Ok,
        r matches Ok(s) ==> json_list_text(normalized(texts(tags@))) == s@,
        r matches Ok(s) ==> stored_tags(s@) == normalized(texts(tags@)),
{
    let normal = normalize_tags(tags);
    let r = encode_list(&normal);
    proof {
        lemma_normalize_idempotent(texts(tags@));
    }
    r
}

/// A copy of a list of strings.
pub(crate) fn clone_texts(v: &Vec<String>) -> (r: Vec<String>)
    ensures
        texts(r@) == texts(v@),
{
    let mut r: Vec<String> = Vec::new();
    let mut i: usize = 0;
    while i < v.len()
        invariant
            i <= v.len(),
            r.len() == i,
            forall|k: int| 0 <= k < i ==> (#[trigger] r@[k])@ == v@[k]@,
        decreases v.len() - i,
    {
        r.push(v[i].clone());
        i = i + 1;
    }
    assert(texts(r@) =~= texts(v@));
    r
}

/// Whole value of a stored boolean column: any non-zero integer is `true`.
pub fn bool_from(i: i64) -> (r: bool)
    ensures
        r == (i != 0),
{
    i != 0
}

} // verus!
