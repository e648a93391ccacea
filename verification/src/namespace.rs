//! The namespace of a function, inferred from its debug name.
//!
//! A name such as `void es::render::draw(int)` carries its namespace behind
//! the first white space. A pattern picks that token out; the token is then
//! cut down to its first segment, unless it starts with the prefix `es::`,
//! under which the second segment is kept too.

use regex::Regex;
use vstd::prelude::*;

verus! {

/// The pattern that picks the namespace token out of a name: a white-space
/// character, then, as the first group, two runs of lower-case letters,
/// digits, `-` and `_`, with or without `::` between them.
pub const NAMESPACE_PATTERN: &'static str = r"(?:\s)((?:[a-z0-9-_]+)(?:::)?(?:[a-z0-9-_]+))";

/// The label of the bucket for functions without a namespace.
pub const NON_NAMESPACED: &'static str = "non_namespaced";

/// What group 1 of the first match of the regular expression `pattern` in
/// `text` holds, as the `regex` crate finds it; `None` where the pattern
/// does not match, has no such group, or is no valid pattern.
pub uninterp spec fn first_group(pattern: Seq<char>, text: Seq<char>) -> Option<Seq<char>>;

/// Compiles `pattern` once with `regex::Regex::new` and looks for its
/// first match in each of `texts` with `Regex::captures`. Trusted: the
/// result at each position is the function [`first_group`] of the pattern
/// and the text at that position, the text of group 1 of that match.
#[verifier::external_body]
fn find_first_groups(pattern: &str, texts: &Vec<String>) -> (found: Vec<Option<String>>)
    ensures
        found@.len() == texts@.len(),
        forall|i: int|
            0 <= i < texts@.len() ==> match #[trigger] found@[i] {
                Some(token) => first_group(pattern@, texts@[i]@) == Some(token@),
                None => first_group(pattern@, texts@[i]@) is None,
            },
{
    let compiled = Regex::new(pattern).ok();
    texts.iter().map(|text| {
        let captures = compiled.as_ref()?.captures(text)?;
        Some(captures.get(1)?.as_str().to_string())
    }).collect()
}

/// Whether `c` is white space: a character with the Unicode property
/// `White_Space`.
pub open spec fn is_space(c: char) -> bool {
    let n = c as u32;
    ||| 0x09 <= n <= 0x0d
    ||| n == 0x20
    ||| n == 0x85
    ||| n == 0xa0
    ||| n == 0x1680
    ||| 0x2000 <= n <= 0x200a
    ||| n == 0x2028
    ||| n == 0x2029
    ||| n == 0x202f
    ||| n == 0x205f
    ||| n == 0x3000
}

/// The first position at or behind `from` that holds no white space, or
/// the length of `s` where there is none.
pub open spec fn skip_spaces(s: Seq<char>, from: int) -> int
    decreases s.len() - from,
{
    if 0 <= from < s.len() && is_space(s[from]) {
        skip_spaces(s, from + 1)
    } else {
        from
    }
}

/// The end of `s` without its trailing white space, but not before `floor`.
pub open spec fn drop_spaces(s: Seq<char>, floor: int, to: int) -> int
    decreases to,
{
    if 0 <= floor < to <= s.len() && is_space(s[to - 1]) {
        drop_spaces(s, floor, to - 1)
    } else {
        to
    }
}

/// `s` without the white space at its start and at its end.
pub open spec fn trimmed(s: Seq<char>) -> Seq<char> {
    let from = skip_spaces(s, 0);
    s.subrange(from, drop_spaces(s, from, s.len() as int))
}

/// Whether the scope separator `::` stands at position `i` of `s`.
pub open spec fn separator_at(s: Seq<char>, i: int) -> bool {
    0 <= i && i + 1 < s.len() && s[i] == ':' && s[i + 1] == ':'
}

/// The position of the first scope separator at or behind `from`, or the
/// length of `s` where there is none.
pub open spec fn next_separator(s: Seq<char>, from: int) -> int
    decreases s.len() - from,
{
    if from < 0 || from >= s.len() {
        s.len() as int
    } else if separator_at(s, from) {
        from
    } else {
        next_separator(s, from + 1)
    }
}

/// Whether `token` starts with the prefix under which two segments are
/// kept: `es::`.
pub open spec fn keeps_two_levels(token: Seq<char>) -> bool {
    token.len() >= 4 && token[0] == 'e' && token[1] == 's' && token[2] == ':' && token[3] == ':'
}

/// The namespace that a token stands for: the token itself under the
/// prefix `es::`, else its first segment.
pub open spec fn label_of(token: Seq<char>) -> Seq<char> {
    if keeps_two_levels(token) {
        token
    } else {
        token.take(next_separator(token, 0))
    }
}

/// The namespace of the function with the given name.
pub open spec fn namespace(name: Seq<char>) -> Seq<char> {
    match first_group(NAMESPACE_PATTERN@, name) {
        Some(token) => label_of(trimmed(token)),
        None => NON_NAMESPACED@,
    }
}

/// Whether `c` is white space.
pub fn is_whitespace(c: char) -> (b: bool)
    ensures
        b == is_space(c),
{
    let n = c as u32;
    (0x09 <= n && n <= 0x0d) || n == 0x20 || n == 0x85 || n == 0xa0 || n == 0x1680 || (0x2000 <= n
        && n <= 0x200a) || n == 0x2028 || n == 0x2029 || n == 0x202f || n == 0x205f || n == 0x3000
}

/// Removes the white space at the start and at the end of `s`.
pub fn trim<'a>(s: &'a str) -> (t: &'a str)
    ensures
        t@ == trimmed(s@),
{
    let len = s.unicode_len();
    let mut from: usize = 0;
    while from < len && is_whitespace(s.get_char(from))
        invariant
            from <= len,
            len == s@.len(),
            skip_spaces(s@, 0) == skip_spaces(s@, from as int),
        decreases len - from,
    {
        from = from + 1;
    }
    let mut to: usize = len;
    while from < to && is_whitespace(s.get_char(to - 1))
        invariant
            from <= to <= len,
            len == s@.len(),
            drop_spaces(s@, from as int, len as int) == drop_spaces(s@, from as int, to as int),
        decreases to,
    {
        to = to - 1;
    }
    s.substring_char(from, to)
}

/// Cuts a namespace token down to the namespace it stands for.
pub fn namespace_label<'a>(token: &'a str) -> (label: &'a str)
    ensures
        label@ == label_of(token@),
{
    let len = token.unicode_len();
    if len >= 4 && token.get_char(0) == 'e' && token.get_char(1) == 's' && token.get_char(2) == ':'
        && token.get_char(3) == ':' {
        return token;
    }
    let mut at: usize = 0;
    let mut colon_before = false;
    // `at` runs over the positions of `token`; a separator that starts at
    // `at - 1` is seen when the colon at `at` is read.
    while at < len
        invariant
            at <= len,
            len == token@.len(),
            !keeps_two_levels(token@),
            colon_before <==> (at > 0 && token@[at - 1] == ':'),
            forall|i: int| 0 <= i && i + 1 < at ==> !separator_at(token@, i),
        decreases len - at,
    {
        let colon = token.get_char(at) == ':';
        if colon && colon_before {
            proof {
                lemma_next_separator(token@, 0, at - 1);
            }
            assert(token@.take(at - 1) == token@.subrange(0, at - 1));
            return token.substring_char(0, at - 1);
        }
        colon_before = colon;
        at = at + 1;
    }
    proof {
        lemma_no_separator(token@, 0);
        assert(token@.take(len as int) =~= token@);
    }
    token
}

/// Where no separator stands before `at`, and one stands at `at`, the
/// search from `from <= at` ends at `at`.
pub proof fn lemma_next_separator(s: Seq<char>, from: int, at: int)
    requires
        0 <= from <= at,
        separator_at(s, at),
        forall|i: int| from <= i < at ==> !separator_at(s, i),
    ensures
        next_separator(s, from) == at,
    decreases at - from,
{
    if from < at {
        lemma_next_separator(s, from + 1, at);
    }
}

/// Where no separator stands at or behind `from`, the search ends at the
/// end.
pub proof fn lemma_no_separator(s: Seq<char>, from: int)
    requires
        0 <= from,
        forall|i: int| from <= i ==> !separator_at(s, i),
    ensures
        next_separator(s, from) == s.len(),
    decreases s.len() - from,
{
    if from < s.len() {
        lemma_no_separator(s, from + 1);
    }
}

/// The namespaces of the functions with the given names, one per name:
/// the labels of the buckets under which they are filed.
pub fn namespaces_of(names: &Vec<String>) -> (labels: Vec<String>)
    ensures
        labels@.len() == names@.len(),
        forall|i: int| 0 <= i < names@.len() ==> (#[trigger] labels@[i])@ == namespace(names@[i]@),
{
    let tokens = find_first_groups(NAMESPACE_PATTERN, names);
    let mut labels: Vec<String> = Vec::new();
    let mut k: usize = 0;
    while k < tokens.len()
        invariant
            k <= tokens@.len(),
            tokens@.len() == names@.len(),
            labels@.len() == k,
            forall|i: int|
                0 <= i < names@.len() ==> match #[trigger] tokens@[i] {
                    Some(token) => first_group(NAMESPACE_PATTERN@, names@[i]@) == Some(token@),
                    None => first_group(NAMESPACE_PATTERN@, names@[i]@) is None,
                },
            forall|i: int| 0 <= i < k ==> (#[trigger] labels@[i])@ == namespace(names@[i]@),
        decreases tokens@.len() - k,
    {
        let label = match &tokens[k] {
            Some(token) => String::from_str(namespace_label(trim(token.as_str()))),
            None => String::from_str(NON_NAMESPACED),
        };
        labels.push(label);
        k = k + 1;
    }
    labels
}

/// The namespace of the function with the given name: the label of the
/// bucket under which it is filed.
pub fn namespace_of(name: &str) -> (label: String)
    ensures
        label@ == namespace(name@),
{
    let mut names: Vec<String> = Vec::new();
    names.push(String::from_str(name));
    let mut labels = namespaces_of(&names);
    match labels.pop() {
        Some(label) => label,
        None => String::from_str(NON_NAMESPACED),
    }
}

} // verus!
