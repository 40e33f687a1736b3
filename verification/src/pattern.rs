//! Patterns that names and lines are matched against: regular expressions of the crate `regex`
//! and fuzzy patterns of the crate `nucleo`.
use nucleo::pattern::{CaseMatching, Normalization, Pattern};
use nucleo::{Config, Matcher, Utf32Str};
use regex::{Regex, RegexBuilder};
use vstd::prelude::*;
use vstd::string::*;
use vstd::utf8::*;

use crate::text::chars_of;

verus! {

/// A compiled regular expression, `regex::Regex`.
#[verifier::external_type_specification]
#[verifier::external_body]
pub struct ExRegex(regex::Regex);

/// The pattern that a regular expression was compiled from.
pub uninterp spec fn regex_text(re: Regex) -> Seq<char>;

/// Whether a regular expression was compiled to match letters in either case.
pub uninterp spec fn regex_ignores_case(re: Regex) -> bool;

/// Whether `RegexBuilder::build` compiles a pattern within a size limit in bytes; the size of what
/// is compiled depends on the width of a machine word.
pub uninterp spec fn regex_compiles(
    pattern: Seq<char>,
    ignore_case: bool,
    size_limit: nat,
    word_bits: nat,
) -> bool;

/// Whether `Regex::is_match` finds a pattern in a text.
pub uninterp spec fn regex_finds(pattern: Seq<char>, ignore_case: bool, text: Seq<char>) -> bool;

/// `RegexBuilder::build`, with `case_insensitive` and `size_limit` set: compiles `pattern`, or
/// fails where it is no regular expression or takes more than `size_limit` bytes. Which patterns
/// these are has only a name here.
#[verifier::external_body]
pub(crate) fn compile_regex(pattern: &str, ignore_case: bool, size_limit: usize) -> (r: Option<
    Regex,
>)
    ensures
        r is Some <==> regex_compiles(
            pattern@,
            ignore_case,
            size_limit as nat,
            usize::BITS as nat,
        ),
        r matches Some(re) ==> regex_text(re) == pattern@ && regex_ignores_case(re) == ignore_case,
{
    RegexBuilder::new(pattern).case_insensitive(ignore_case).size_limit(size_limit).build().ok()
}

/// `Regex::is_match`: whether the regular expression matches somewhere in `text`. The result
/// depends on the pattern, on whether case is ignored, and on the text.
#[verifier::external_body]
pub(crate) fn regex_is_match(re: &Regex, text: &str) -> (r: bool)
    ensures
        r == regex_finds(regex_text(*re), regex_ignores_case(*re), text@),
{
    re.is_match(text)
}

/// A parsed fuzzy pattern, `nucleo::pattern::Pattern`.
#[verifier::external_type_specification]
#[verifier::external_body]
pub struct ExPattern(nucleo::pattern::Pattern);

/// The working memory and the settings of the fuzzy matcher, `nucleo::Matcher`.
#[verifier::external_type_specification]
#[verifier::external_body]
pub struct ExMatcher(nucleo::Matcher);

/// The text that a fuzzy pattern was parsed from.
pub uninterp spec fn pattern_text(p: Pattern) -> Seq<char>;

/// Whether a matcher has the default settings, but for those that each match sets anew.
pub uninterp spec fn has_default_settings(m: Matcher) -> bool;

/// The score that a name gets under a fuzzy pattern, and none where it does not match.
pub uninterp spec fn fuzzy_score(pattern: Seq<char>, name: Seq<char>) -> Option<u32>;

/// The longest text that scoring is sure to take: each character of a pattern scores 26 at most
/// and the first one 36, and the score of a word of the pattern is held in 16 bits.
pub const MAX_FUZZY_LEN: usize = 2520;

/// The longest pattern whose words have scores that add up to 32 bits at most.
pub const MAX_PATTERN_LEN: usize = 119304647;

/// The most characters that the words of a parsed pattern have: in a word beyond ASCII each
/// backslash may be written twice.
pub open spec fn parsed_len(pattern: Seq<char>) -> nat {
    if is_ascii_chars(pattern) {
        pattern.len()
    } else {
        2 * pattern.len()
    }
}

/// The characters, and more around them, that have a plain Latin letter to stand for them or fold
/// to one that has: a word of a pattern that holds one is matched without such stand-ins.
pub open spec fn latin_variant(c: char) -> bool {
    let u = c as u32;
    ||| 0xc0 <= u <= 0x2af
    ||| 0x363 <= u <= 0x36f
    ||| 0x1d00 <= u <= 0x1eff
    ||| 0x2071 <= u <= 0x2184
    ||| 0x2c60 <= u <= 0x2c7f
    ||| 0xa720 <= u <= 0xa7ff
}

/// The lowercase letters that case folding changes all the same: a long s, a final sigma and their
/// like. Without stand-ins the scorer takes such a letter for the folded one when it looks for the
/// beginning of a match, and for itself when it goes on from there.
pub open spec fn folds_though_lowercase(c: char) -> bool {
    let u = c as u32;
    ||| long_s(c)
    ||| u == 0xb5
    ||| u == 0x345
    ||| u == 0x3c2
    ||| u == 0x3d0
    ||| u == 0x3d1
    ||| u == 0x3d5
    ||| u == 0x3d6
    ||| u == 0x3f0
    ||| u == 0x3f1
    ||| u == 0x3f5
    ||| 0x13f8 <= u <= 0x13fd
    ||| 0x1c80 <= u <= 0x1c88
    ||| u == 0x1fbe
    ||| 0xab70 <= u <= 0xabbf
}

/// A long s, without a dot or with one: the Latin letters among those that fold though lowercase.
pub open spec fn long_s(c: char) -> bool {
    c == '\u{17f}' || c == '\u{1e9b}'
}

/// Whether a character of a pattern may fold to what the letter `c`, which folds though lowercase,
/// folds to: a long s folds to an s, all others fold to letters of their own scripts.
pub open spec fn may_fold_alike(p: char, c: char) -> bool {
    let u = p as u32;
    if long_s(c) {
        p == 's' || p == 'S' || p == '\u{1e60}' || p == '\u{1e61}' || long_s(p)
    } else {
        ||| u == 0xb5
        ||| u == 0x345
        ||| 0x370 <= u <= 0x52f
        ||| 0x13a0 <= u <= 0x13ff
        ||| 0x1c80 <= u <= 0x1c8f
        ||| 0x1f00 <= u <= 0x1fff
        ||| 0xa640 <= u <= 0xa69f
        ||| 0xab70 <= u <= 0xabbf
    }
}

/// Some character of a pattern is a variant of a Latin letter.
pub open spec fn has_latin_variant(pattern: Seq<char>) -> bool {
    exists|j: int| 0 <= j < pattern.len() && latin_variant(#[trigger] pattern[j])
}

/// A letter of a name folds though lowercase, and to what some character of a pattern may fold to.
pub open spec fn folds_apart(pattern: Seq<char>, c: char) -> bool {
    folds_though_lowercase(c) && exists|j: int|
        0 <= j < pattern.len() && may_fold_alike(#[trigger] pattern[j], c)
}

/// Whether the scorer takes each letter of `name` for the same letter throughout.
pub open spec fn folds_alike(pattern: Seq<char>, name: Seq<char>) -> bool {
    has_latin_variant(pattern) ==> forall|i: int|
        0 <= i < name.len() ==> !folds_apart(pattern, #[trigger] name[i])
}

/// Whether `name` can be scored under `pattern`: scores, positions and the size of the table of both
/// stay within the numbers that hold them, and letters are folded alike.
pub open spec fn fuzzy_in_range(pattern: Seq<char>, name: Seq<char>) -> bool {
    &&& folds_alike(pattern, name)
    &&& parsed_len(pattern) <= MAX_FUZZY_LEN || encode_utf8(name).len() <= MAX_FUZZY_LEN
    &&& parsed_len(pattern) <= MAX_PATTERN_LEN
    &&& encode_utf8(name).len() <= u32::MAX
    &&& encode_utf8(name).len() * parsed_len(pattern) <= usize::MAX
}

/// Whether `c` is a variant of a Latin letter, or close to one.
fn is_latin_variant(c: char) -> (r: bool)
    ensures
        r == latin_variant(c),
{
    let u: u32 = c as u32;
    (0xc0 <= u && u <= 0x2af) || (0x363 <= u && u <= 0x36f) || (0x1d00 <= u && u <= 0x1eff) || (
    0x2071 <= u && u <= 0x2184) || (0x2c60 <= u && u <= 0x2c7f) || (0xa720 <= u && u <= 0xa7ff)
}

/// Whether `c` is a long s.
fn is_long_s(c: char) -> (r: bool)
    ensures
        r == long_s(c),
{
    c == '\u{17f}' || c == '\u{1e9b}'
}

/// Whether `c` is a lowercase letter that case folding changes.
fn is_folded_lowercase(c: char) -> (r: bool)
    ensures
        r == folds_though_lowercase(c),
{
    let u: u32 = c as u32;
    is_long_s(c) || u == 0xb5 || u == 0x345 || u == 0x3c2 || u == 0x3d0 || u == 0x3d1 || u == 0x3d5
        || u == 0x3d6 || u == 0x3f0 || u == 0x3f1 || u == 0x3f5 || (0x13f8 <= u && u <= 0x13fd) || (
    0x1c80 <= u && u <= 0x1c88) || u == 0x1fbe || (0xab70 <= u && u <= 0xabbf)
}

/// Whether `p` may fold to what `c` folds to.
fn can_fold_alike(p: char, c: char) -> (r: bool)
    ensures
        r == may_fold_alike(p, c),
{
    let u: u32 = p as u32;
    if is_long_s(c) {
        p == 's' || p == 'S' || p == '\u{1e60}' || p == '\u{1e61}' || is_long_s(p)
    } else {
        u == 0xb5 || u == 0x345 || (0x370 <= u && u <= 0x52f) || (0x13a0 <= u && u <= 0x13ff) || (
        0x1c80 <= u && u <= 0x1c8f) || (0x1f00 <= u && u <= 0x1fff) || (0xa640 <= u && u <= 0xa69f)
            || (0xab70 <= u && u <= 0xabbf)
    }
}

/// What is known of a pattern once, for the test of each name.
pub struct PatternTest {
    chars: Vec<char>,
    ascii: bool,
    latin: bool,
}

impl View for PatternTest {
    type V = Seq<char>;

    closed spec fn view(&self) -> Seq<char> {
        self.chars@
    }
}

impl PatternTest {
    #[verifier::type_invariant]
    spec fn inv(self) -> bool {
        &&& self.ascii == is_ascii_chars(self.chars@)
        &&& self.latin == has_latin_variant(self.chars@)
    }

    /// Makes a test for `pattern`.
    pub fn new(pattern: &str) -> (r: PatternTest)
        ensures
            r@ == pattern@,
    {
        let chars: Vec<char> = chars_of(pattern);
        let ascii: bool = pattern.is_ascii();
        let mut latin: bool = false;
        let mut i: usize = 0;
        while i < chars.len()
            invariant
                i <= chars@.len(),
                latin == (exists|j: int| 0 <= j < i && latin_variant(#[trigger] chars@[j])),
            decreases chars@.len() - i,
        {
            if is_latin_variant(chars[i]) {
                latin = true;
            }
            i += 1;
        }
        PatternTest { chars, ascii, latin }
    }

    /// Whether the scorer may take the letter `c` for two letters.
    fn is_apart(&self, c: char) -> (r: bool)
        ensures
            r == folds_apart(self@, c),
    {
        if !is_folded_lowercase(c) {
            return false;
        }
        let mut i: usize = 0;
        while i < self.chars.len()
            invariant
                i <= self.chars@.len(),
                forall|j: int| 0 <= j < i ==> !may_fold_alike(#[trigger] self.chars@[j], c),
                folds_though_lowercase(c),
            decreases self.chars@.len() - i,
        {
            if can_fold_alike(self.chars[i], c) {
                return true;
            }
            i += 1;
        }
        false
    }

    /// Whether `name` can be scored under the pattern.
    pub fn takes(&self, name: &str) -> (r: bool)
        ensures
            r == fuzzy_in_range(self@, name@),
    {
        proof {
            use_type_invariant(self);
        }
        let size: usize = name.as_bytes().len();
        let count: usize = self.chars.len();
        if count > MAX_PATTERN_LEN {
            return false;
        }
        let len: usize = if self.ascii {
            count
        } else {
            2 * count
        };
        if len > MAX_FUZZY_LEN && size > MAX_FUZZY_LEN {
            return false;
        }
        if len > MAX_PATTERN_LEN || size as u64 > u32::MAX as u64 {
            return false;
        }
        assert(size * len <= 4294967295 * 119304647) by (nonlinear_arith)
            requires
                size <= 4294967295,
                len <= 119304647,
        ;
        if size as u64 * len as u64 > usize::MAX as u64 {
            return false;
        }
        if !self.latin {
            return true;
        }
        for c in it: name.chars()
            invariant
                it.seq() == name@,
                forall|i: int| 0 <= i < it.index() ==> !folds_apart(self@, #[trigger] name@[i]),
                has_latin_variant(self@),
        {
            if self.is_apart(c) {
                assert(folds_apart(self@, name@[it.index() as int]));
                return false;
            }
        }
        true
    }
}

/// `Pattern::parse`, with `CaseMatching::Ignore` and `Normalization::Smart`.
#[verifier::external_body]
pub(crate) fn parse_pattern(text: &str) -> (r: Pattern)
    ensures
        pattern_text(r) == text@,
{
    Pattern::parse(text, CaseMatching::Ignore, Normalization::Smart)
}

/// `Matcher::new`, with `Config::DEFAULT`.
#[verifier::external_body]
pub(crate) fn new_matcher() -> (r: Matcher)
    ensures
        has_default_settings(r),
{
    Matcher::new(Config::DEFAULT)
}

/// `Pattern::score` on the name, read through `Utf32Str::new`: the score depends on the text of
/// the pattern, on the name and on the settings of the matcher. What it is has only a name here.
/// `buf` is memory that `Utf32Str::new` may write the characters of the name to. Beyond the limits
/// that are asked for, numbers may overflow, and a name may be found to begin a match where it does
/// not.
#[verifier::external_body]
pub(crate) fn score_name(
    pattern: &Pattern,
    name: &str,
    matcher: &mut Matcher,
    buf: &mut Vec<char>,
) -> (r: Option<u32>)
    requires
        fuzzy_in_range(pattern_text(*pattern), name@),
        has_default_settings(*old(matcher)),
    ensures
        r == fuzzy_score(pattern_text(*pattern), name@),
        has_default_settings(*final(matcher)),
{
    pattern.score(Utf32Str::new(name, buf), matcher)
}

/// Every name of up to a few thousand bytes can be scored under every ASCII pattern of up to a few
/// thousand characters.
pub proof fn law_ordinary_names_can_be_scored(pattern: Seq<char>, name: Seq<char>)
    requires
        is_ascii_chars(pattern),
        pattern.len() <= 2520 || encode_utf8(name).len() <= 2520,
        pattern.len() <= 60000,
        encode_utf8(name).len() <= 60000,
    ensures
        fuzzy_in_range(pattern, name),
{
    assert(!has_latin_variant(pattern)) by {
        assert forall|j: int| 0 <= j < pattern.len() implies !latin_variant(
            #[trigger] pattern[j],
        ) by {
            assert('\0' <= pattern[j] <= '\u{7f}');
        }
    }
    let n = encode_utf8(name).len();
    let m = pattern.len();
    assert(n * m <= 60000 * 60000) by (nonlinear_arith)
        requires
            n <= 60000,
            m <= 60000,
    ;
}

} // verus!
