//! NSBundle-style `.lproj` strings: a `Localizable.strings` parser and the
//! key/value table the account artwork reads its labels from.
//!
//! The grammar: entries `"key" = "value";`, separated by white space (and
//! byte-order marks), `// line` and `/* block */` comments. Inside quotes a
//! backslash escapes the next character, with `\n`, `\r` and `\t` standing for
//! control characters. Parsing stops at the first entry that does not fit; the
//! entries read so far are kept, and a later entry for a key replaces an
//! earlier one.
use crate::text::{
    byte_len, chars_of, is_white_space, is_white_space_char, lemma_byte_len_at_least_len,
    lemma_encode_push, lemma_take_shorter, same_text, str_byte_len, string_from_chars,
};
use vstd::prelude::*;

verus! {

broadcast use vstd::utf8::encode_utf8_valid_utf8, vstd::utf8::encode_utf8_decode_utf8;

/// Characters skipped between tokens: Unicode white space and U+FEFF.
pub open spec fn is_space(c: char) -> bool {
    is_white_space(c) || c == '\u{feff}'
}

/// End of the run of space characters starting at `i`.
pub open spec fn blanks_end(s: Seq<char>, i: nat) -> nat
    decreases s.len() - i,
{
    if i < s.len() && is_space(s[i as int]) {
        blanks_end(s, i + 1)
    } else {
        i
    }
}

/// Position after the first newline at or after `i` (or the end of input).
pub open spec fn line_comment_end(s: Seq<char>, i: nat) -> nat
    decreases s.len() - i,
{
    if i < s.len() {
        if s[i as int] == '\n' {
            i + 1
        } else {
            line_comment_end(s, i + 1)
        }
    } else {
        i
    }
}

/// Position after the `*/` that closes a block comment whose body starts at
/// `i` (`star`: the character before `i` was a `*` of the body), or the end
/// of input.
pub open spec fn block_comment_end(s: Seq<char>, i: nat, star: bool) -> nat
    decreases s.len() - i,
{
    if i < s.len() {
        if star && s[i as int] == '/' {
            i + 1
        } else {
            block_comment_end(s, i + 1, s[i as int] == '*')
        }
    } else {
        i
    }
}

pub proof fn lemma_blanks_end(s: Seq<char>, i: nat)
    requires
        i <= s.len(),
    ensures
        i <= blanks_end(s, i) <= s.len(),
    decreases s.len() - i,
{
    if i < s.len() && is_space(s[i as int]) {
        lemma_blanks_end(s, i + 1);
    }
}

pub proof fn lemma_line_comment_end(s: Seq<char>, i: nat)
    requires
        i <= s.len(),
    ensures
        i <= line_comment_end(s, i) <= s.len(),
    decreases s.len() - i,
{
    if i < s.len() && s[i as int] != '\n' {
        lemma_line_comment_end(s, i + 1);
    }
}

pub proof fn lemma_block_comment_end(s: Seq<char>, i: nat, star: bool)
    requires
        i <= s.len(),
    ensures
        i <= block_comment_end(s, i, star) <= s.len(),
    decreases s.len() - i,
{
    if i < s.len() && !(star && s[i as int] == '/') {
        lemma_block_comment_end(s, i + 1, s[i as int] == '*');
    }
}

/// Position of the next token at or after `i`: spaces and comments skipped.
pub open spec fn space_end(s: Seq<char>, i: nat) -> nat
    decreases s.len() - i,
{
    let j = blanks_end(s, i);
    if i <= s.len() && j + 1 < s.len() && s[j as int] == '/' && s[(j + 1) as int] == '/' {
        proof {
            lemma_blanks_end(s, i);
            lemma_line_comment_end(s, j + 2);
        }
        space_end(s, line_comment_end(s, j + 2))
    } else if i <= s.len() && j + 1 < s.len() && s[j as int] == '/' && s[(j + 1) as int] == '*' {
        proof {
            lemma_blanks_end(s, i);
            lemma_block_comment_end(s, j + 2, false);
        }
        space_end(s, block_comment_end(s, j + 2, false))
    } else {
        j
    }
}

pub proof fn lemma_space_end(s: Seq<char>, i: nat)
    requires
        i <= s.len(),
    ensures
        i <= space_end(s, i) <= s.len(),
    decreases s.len() - i,
{
    let j = blanks_end(s, i);
    lemma_blanks_end(s, i);
    if j + 1 < s.len() && s[j as int] == '/' && s[(j + 1) as int] == '/' {
        lemma_line_comment_end(s, j + 2);
        lemma_space_end(s, line_comment_end(s, j + 2));
    } else if j + 1 < s.len() && s[j as int] == '/' && s[(j + 1) as int] == '*' {
        lemma_block_comment_end(s, j + 2, false);
        lemma_space_end(s, block_comment_end(s, j + 2, false));
    }
}

/// The character that a backslash followed by `c` stands for.
pub open spec fn unescaped(c: char) -> char {
    if c == 'n' {
        '\n'
    } else if c == 'r' {
        '\r'
    } else if c == 't' {
        '\t'
    } else {
        c
    }
}

/// Rest of a quoted string whose body continues at `i`, `acc` holding what
/// was read of it: the text and the position after the closing quote, or
/// `None` when the input ends first.
pub open spec fn quoted_body(s: Seq<char>, i: nat, acc: Seq<char>) -> Option<(Seq<char>, nat)>
    decreases s.len() - i,
{
    if i < s.len() {
        if s[i as int] == '"' {
            Some((acc, i + 1))
        } else if s[i as int] == '\\' {
            if i + 1 < s.len() {
                quoted_body(s, i + 2, acc.push(unescaped(s[(i + 1) as int])))
            } else {
                None
            }
        } else {
            quoted_body(s, i + 1, acc.push(s[i as int]))
        }
    } else {
        None
    }
}

/// The quoted string that starts at `i`, if one does.
pub open spec fn quoted_at(s: Seq<char>, i: nat) -> Option<(Seq<char>, nat)> {
    if i < s.len() && s[i as int] == '"' {
        quoted_body(s, i + 1, seq![])
    } else {
        None
    }
}

pub proof fn lemma_quoted_body(s: Seq<char>, i: nat, acc: Seq<char>)
    requires
        i <= s.len(),
    ensures
        quoted_body(s, i, acc) matches Some((_, e)) ==> i < e <= s.len(),
    decreases s.len() - i,
{
    if i < s.len() && s[i as int] != '"' {
        if s[i as int] == '\\' {
            if i + 1 < s.len() {
                lemma_quoted_body(s, i + 2, acc.push(unescaped(s[(i + 1) as int])));
            }
        } else {
            lemma_quoted_body(s, i + 1, acc.push(s[i as int]));
        }
    }
}

/// Entries read from position `i` on, appended to `acc`.
pub open spec fn entries_from(s: Seq<char>, i: nat, acc: Seq<(Seq<char>, Seq<char>)>) -> Seq<
    (Seq<char>, Seq<char>),
>
    decreases s.len() - i,
{
    if i <= s.len() {
        let a = space_end(s, i);
        match quoted_at(s, a) {
            None => acc,
            Some((key, b)) => {
                let c = space_end(s, b);
                if c < s.len() && s[c as int] == '=' {
                    let d = space_end(s, c + 1);
                    match quoted_at(s, d) {
                        None => acc,
                        Some((value, e)) => {
                            let f = space_end(s, e);
                            if f < s.len() && s[f as int] == ';' {
                                proof {
                                    lemma_space_end(s, i);
                                    lemma_quoted_body(s, a + 1, seq![]);
                                    lemma_space_end(s, b);
                                    lemma_space_end(s, c + 1);
                                    lemma_quoted_body(s, d + 1, seq![]);
                                    lemma_space_end(s, e);
                                }
                                entries_from(s, f + 1, acc.push((key, value)))
                            } else {
                                acc.push((key, value))
                            }
                        },
                    }
                } else {
                    acc
                }
            },
        }
    } else {
        acc
    }
}

/// The entries of a `.strings` source, in the order they appear.
pub open spec fn entries(s: Seq<char>) -> Seq<(Seq<char>, Seq<char>)> {
    entries_from(s, 0, seq![])
}

/// Key/value table of a list of entries: each entry overrides the earlier
/// ones with the same key.
pub open spec fn table_of(pairs: Seq<(Seq<char>, Seq<char>)>) -> Map<Seq<char>, Seq<char>>
    decreases pairs.len(),
{
    if pairs.len() == 0 {
        Map::empty()
    } else {
        table_of(pairs.drop_last()).insert(pairs.last().0, pairs.last().1)
    }
}

/// Views of parsed string pairs.
pub open spec fn pairs_view(pairs: Seq<(String, String)>) -> Seq<(Seq<char>, Seq<char>)> {
    pairs.map_values(|p: (String, String)| (p.0@, p.1@))
}

/// Every character takes one to four bytes, ASCII exactly one.
proof fn lemma_char_width(c: char)
    ensures
        1 <= byte_len(seq![c]) <= 4,
        (c as u32) <= 0x7f ==> byte_len(seq![c]) == 1,
{
    reveal_with_fuel(vstd::utf8::encode_utf8, 2);
    assert(seq![c].drop_first() =~= Seq::<char>::empty());
}

fn is_space_char(c: char) -> (b: bool)
    ensures
        b == is_space(c),
{
    is_white_space_char(c) || c == '\u{feff}'
}

/// Skips white space, byte-order marks and comments from `pos` on; returns
/// the position of the next token.
pub fn skip_space(chars: &[char], pos: usize) -> (next: usize)
    requires
        pos <= chars@.len(),
    ensures
        next as nat == space_end(chars@, pos as nat),
{
    let ghost s = chars@;
    let mut i = pos;
    loop
        invariant
            s == chars@,
            i <= s.len(),
            space_end(s, i as nat) == space_end(s, pos as nat),
        decreases s.len() - i,
    {
        let ghost i0 = i;
        while i < chars.len() && is_space_char(chars[i])
            invariant
                s == chars@,
                i0 <= i <= s.len(),
                blanks_end(s, i as nat) == blanks_end(s, i0 as nat),
            decreases s.len() - i,
        {
            i = i + 1;
        }
        assert(i as nat == blanks_end(s, i0 as nat));
        if i < chars.len() && chars[i] == '/' && i + 1 < chars.len() && chars[i + 1] == '/' {
            let ghost start = i + 2;
            i = i + 2;
            while i < chars.len() && chars[i] != '\n'
                invariant
                    s == chars@,
                    start <= i <= s.len(),
                    line_comment_end(s, i as nat) == line_comment_end(s, start as nat),
                decreases s.len() - i,
            {
                i = i + 1;
            }
            if i < chars.len() {
                i = i + 1;
            }
        } else if i < chars.len() && chars[i] == '/' && i + 1 < chars.len() && chars[i + 1] == '*' {
            let ghost start = i + 2;
            i = i + 2;
            let mut star = false;
            while i < chars.len() && !(star && chars[i] == '/')
                invariant
                    s == chars@,
                    start <= i <= s.len(),
                    block_comment_end(s, i as nat, star) == block_comment_end(s, start as nat, false),
                decreases s.len() - i,
            {
                star = chars[i] == '*';
                i = i + 1;
            }
            if i < chars.len() {
                i = i + 1;
            }
        } else {
            return i;
        }
    }
}

/// Reads the quoted string that starts at `pos`: its text, escapes resolved,
/// and the position after the closing quote; `None` when `pos` holds no quote
/// or the input ends inside the string.
pub fn quoted(chars: &[char], pos: usize) -> (r: Option<(String, usize)>)
    requires
        pos <= chars@.len(),
        byte_len(chars@) <= isize::MAX,
    ensures
        match r {
            Some((text, end)) => quoted_at(chars@, pos as nat) == Some((text@, end as nat)),
            None => quoted_at(chars@, pos as nat) is None,
        },
{
    let ghost s = chars@;
    if pos >= chars.len() || chars[pos] != '"' {
        return None;
    }
    let mut out: Vec<char> = Vec::new();
    let mut i = pos + 1;
    proof {
        assert(quoted_at(s, pos as nat) == quoted_body(s, i as nat, out@));
        assert(s.take(i as int) =~= s.take(pos as int).push(s[pos as int]));
        lemma_encode_push(s.take(pos as int), s[pos as int]);
        lemma_char_width(s[pos as int]);
    }
    loop
        invariant
            s == chars@,
            pos + 1 <= i <= s.len(),
            quoted_body(s, i as nat, out@) == quoted_at(s, pos as nat),
            byte_len(out@) <= byte_len(s.take(i as int)),
            byte_len(s) <= isize::MAX,
        decreases s.len() - i,
    {
        if i >= chars.len() {
            return None;
        }
        let c = chars[i];
        if c == '"' {
            proof {
                lemma_take_shorter(s, i as int);
            }
            let text = string_from_chars(&out);
            return Some((text, i + 1));
        }
        if c == '\\' {
            if i + 1 >= chars.len() {
                return None;
            }
            let e = chars[i + 1];
            let u = if e == 'n' {
                '\n'
            } else if e == 'r' {
                '\r'
            } else if e == 't' {
                '\t'
            } else {
                e
            };
            proof {
                assert(u == unescaped(e));
                let t = s.take(i as int);
                assert(s.take(i + 2) =~= t.push(c).push(e));
                lemma_encode_push(t, c);
                lemma_encode_push(t.push(c), e);
                lemma_encode_push(out@, u);
                lemma_char_width(c);
                lemma_char_width(e);
                lemma_char_width(u);
            }
            out.push(u);
            i = i + 2;
        } else {
            proof {
                assert(s.take(i + 1) =~= s.take(i as int).push(c));
                lemma_encode_push(s.take(i as int), c);
                lemma_encode_push(out@, c);
            }
            out.push(c);
            i = i + 1;
        }
    }
}

/// Parses a `Localizable.strings` source into its entries, in order.
pub fn parse(source: &str) -> (pairs: Vec<(String, String)>)
    ensures
        pairs_view(pairs@) == entries(source@),
{
    let chars = chars_of(source);
    // The source's byte length bounds every string cut out of it.
    let _bytes = str_byte_len(source);
    let ghost s = chars@;
    let mut pairs: Vec<(String, String)> = Vec::new();
    let mut i: usize = 0;
    assert(pairs_view(pairs@) =~= Seq::<(Seq<char>, Seq<char>)>::empty());
    loop
        invariant
            s == chars@,
            s == source@,
            i <= s.len(),
            byte_len(s) <= isize::MAX,
            entries_from(s, i as nat, pairs_view(pairs@)) == entries(s),
        decreases s.len() - i,
    {
        let a = skip_space(&chars, i);
        proof {
            lemma_space_end(s, i as nat);
        }
        let (key, b) = match quoted(&chars, a) {
            Some(found) => found,
            None => return pairs,
        };
        proof {
            lemma_quoted_body(s, (a + 1) as nat, seq![]);
        }
        let c = skip_space(&chars, b);
        proof {
            lemma_space_end(s, b as nat);
        }
        if c >= chars.len() || chars[c] != '=' {
            return pairs;
        }
        let d = skip_space(&chars, c + 1);
        proof {
            lemma_space_end(s, (c + 1) as nat);
        }
        let (value, e) = match quoted(&chars, d) {
            Some(found) => found,
            None => return pairs,
        };
        proof {
            lemma_quoted_body(s, (d + 1) as nat, seq![]);
        }
        let ghost before = pairs_view(pairs@);
        pairs.push((key, value));
        assert(pairs_view(pairs@) =~= before.push((key@, value@)));
        let f = skip_space(&chars, e);
        proof {
            lemma_space_end(s, e as nat);
        }
        if f >= chars.len() || chars[f] != ';' {
            return pairs;
        }
        i = f + 1;
    }
}

proof fn lemma_table_last(pairs: Seq<(Seq<char>, Seq<char>)>, key: Seq<char>, k: int)
    requires
        0 <= k < pairs.len(),
        pairs[k].0 == key,
        forall|j: int| k < j < pairs.len() ==> #[trigger] pairs[j].0 != key,
    ensures
        table_of(pairs).contains_key(key),
        table_of(pairs)[key] == pairs[k].1,
    decreases pairs.len(),
{
    if k < pairs.len() - 1 {
        lemma_table_last(pairs.drop_last(), key, k);
        assert(pairs[pairs.len() - 1].0 != key);
    }
}

proof fn lemma_table_absent(pairs: Seq<(Seq<char>, Seq<char>)>, key: Seq<char>)
    requires
        forall|j: int| 0 <= j < pairs.len() ==> #[trigger] pairs[j].0 != key,
    ensures
        !table_of(pairs).contains_key(key),
    decreases pairs.len(),
{
    if pairs.len() > 0 {
        lemma_table_absent(pairs.drop_last(), key);
        assert(pairs[pairs.len() - 1].0 != key);
    }
}

/// Localized labels of the account artwork, and whether they are Russian
/// (whose artwork needs narrower buttons).
pub struct Strings {
    entries: Vec<(String, String)>,
    russian: bool,
}

impl Strings {
    /// The key/value table.
    pub closed spec fn table(&self) -> Map<Seq<char>, Seq<char>> {
        table_of(pairs_view(self.entries@))
    }

    /// The table came from the Russian `.lproj`.
    pub closed spec fn russian(&self) -> bool {
        self.russian
    }

    /// Table read from the `Localizable.strings` source of the `locale` `.lproj`.
    pub fn from_lproj(source: &str, locale: &str) -> (strings: Strings)
        ensures
            strings.table() == table_of(entries(source@)),
            strings.russian() == (locale@ == seq!['r', 'u']),
    {
        let entries = parse(source);
        let name = chars_of(locale);
        let russian = name.len() == 2 && name[0] == 'r' && name[1] == 'u';
        proof {
            if russian {
                assert(locale@ =~= seq!['r', 'u']);
            }
        }
        Strings { entries, russian }
    }

    /// The text for `key`, or `fallback` when the table has none.
    pub fn get<'a>(&'a self, key: &str, fallback: &'a str) -> (text: &'a str)
        ensures
            text@ == (if self.table().contains_key(key@) {
                self.table()[key@]
            } else {
                fallback@
            }),
    {
        let ghost pairs = pairs_view(self.entries@);
        let mut k = self.entries.len();
        while k > 0
            invariant
                pairs == pairs_view(self.entries@),
                k <= self.entries@.len(),
                forall|j: int| k <= j < pairs.len() ==> #[trigger] pairs[j].0 != key@,
            decreases k,
        {
            k = k - 1;
            if same_text(self.entries[k].0.as_str(), key) {
                proof {
                    lemma_table_last(pairs, key@, k as int);
                }
                return self.entries[k].1.as_str();
            }
        }
        proof {
            lemma_table_absent(pairs, key@);
        }
        fallback
    }

    pub fn is_russian(&self) -> (russian: bool)
        ensures
            russian == self.russian(),
    {
        self.russian
    }
}

impl Default for Strings {
    /// The built-in English labels: an empty table.
    fn default() -> (strings: Self)
        ensures
            strings.table() == Map::<Seq<char>, Seq<char>>::empty(),
            !strings.russian(),
    {
        let strings = Strings { entries: Vec::new(), russian: false };
        assert(pairs_view(strings.entries@) =~= Seq::<(Seq<char>, Seq<char>)>::empty());
        strings
    }
}

// ---------------------------------------------------------------------------
// Which `.lproj` tables a list of preferred languages asks for.

/// `_` written as `-`, as in `zh_CN` → `zh-CN`.
pub open spec fn dashed(s: Seq<char>) -> Seq<char> {
    s.map_values(|c: char| if c == '_' { '-' } else { c })
}

/// ASCII lower case of a character.
pub open spec fn ascii_lower(c: char) -> char {
    if 'A' <= c && c <= 'Z' {
        ((c as u32) + 32) as char
    } else {
        c
    }
}

pub open spec fn lowered(s: Seq<char>) -> Seq<char> {
    s.map_values(|c: char| ascii_lower(c))
}

/// The text before the first `a` or `b`.
pub open spec fn prefix_before(s: Seq<char>, a: char, b: char) -> Seq<char>
    decreases s.len(),
{
    if s.len() == 0 || s[0] == a || s[0] == b {
        seq![]
    } else {
        seq![s[0]] + prefix_before(s.drop_first(), a, b)
    }
}

pub open spec fn starts_with(s: Seq<char>, p: Seq<char>) -> bool {
    p.len() <= s.len() && s.take(p.len() as int) == p
}

/// A language tag without its encoding or variant: `zh_CN.UTF-8` → `zh-CN`.
pub open spec fn language_tag(language: Seq<char>) -> Seq<char> {
    prefix_before(dashed(language), '.', '@')
}

/// The primary language of a tag: `zh-CN` → `zh`.
pub open spec fn base_language(tag: Seq<char>) -> Seq<char> {
    prefix_before(tag, '-', '-')
}

/// The Chinese script table a lower-case tag asks for, if it is Chinese.
pub open spec fn chinese_script(lower: Seq<char>) -> Option<Seq<char>> {
    if starts_with(lower, seq!['z', 'h', '-', 'h', 'a', 'n', 't']) || lower == seq![
        'z',
        'h',
        '-',
        't',
        'w',
    ] || lower == seq!['z', 'h', '-', 'h', 'k'] {
        Some(seq!['z', 'h', '-', 'H', 'a', 'n', 't'])
    } else if starts_with(lower, seq!['z', 'h']) {
        Some(seq!['z', 'h', '-', 'H', 'a', 'n', 's'])
    } else {
        None
    }
}

/// The two tables a preferred language names, most specific first.
pub open spec fn language_candidates(language: Seq<char>) -> Seq<Seq<char>> {
    let tag = language_tag(language);
    let first = match chinese_script(lowered(tag)) {
        Some(script) => script,
        None => tag,
    };
    seq![first, base_language(tag)]
}

pub open spec fn is_ascii_alnum(c: char) -> bool {
    ('0' <= c && c <= '9') || ('a' <= c && c <= 'z') || ('A' <= c && c <= 'Z')
}

/// A name that cannot leave the `.lproj` directory: ASCII letters, digits
/// and `-` only.
pub open spec fn lproj_name(name: Seq<char>) -> bool {
    forall|i: int| 0 <= i < name.len() ==> is_ascii_alnum(#[trigger] name[i]) || name[i] == '-'
}

/// All candidates of a preference list, two per language, in order.
pub open spec fn all_candidates(languages: Seq<Seq<char>>) -> Seq<Seq<char>> {
    Seq::new(2 * languages.len(), |k: int| language_candidates(languages[k / 2])[k % 2])
}

/// The tables to try from candidate `k` on: unsafe names are skipped, and
/// English (the built-in labels) ends the list.
pub open spec fn plan_from(candidates: Seq<Seq<char>>, k: int) -> Seq<Seq<char>>
    decreases candidates.len() - k,
{
    if k < 0 || k >= candidates.len() {
        seq![]
    } else if !lproj_name(candidates[k]) {
        plan_from(candidates, k + 1)
    } else if candidates[k] == seq!['e', 'n'] {
        seq![]
    } else {
        seq![candidates[k]] + plan_from(candidates, k + 1)
    }
}

/// The `.lproj` tables to try, in order, for a list of preferred languages;
/// the first that can be read is used, and none means the built-in English.
pub open spec fn lproj_plan(languages: Seq<Seq<char>>) -> Seq<Seq<char>> {
    plan_from(all_candidates(languages), 0)
}

pub open spec fn string_views(v: Seq<String>) -> Seq<Seq<char>> {
    v.map_values(|s: String| s@)
}

proof fn lemma_prefix_before_step(s: Seq<char>, a: char, b: char, i: int)
    requires
        0 <= i <= s.len(),
    ensures
        i < s.len() && s[i] != a && s[i] != b ==> prefix_before(s.skip(i), a, b) == seq![s[i]]
            + prefix_before(s.skip(i + 1), a, b),
        (i == s.len() || s[i] == a || s[i] == b) ==> prefix_before(s.skip(i), a, b) == Seq::<
            char,
        >::empty(),
{
    if i < s.len() {
        assert(s.skip(i).drop_first() =~= s.skip(i + 1));
    }
}

proof fn lemma_prefix_before_len(s: Seq<char>, a: char, b: char)
    ensures
        prefix_before(s, a, b).len() <= s.len(),
    decreases s.len(),
{
    if s.len() > 0 {
        lemma_prefix_before_len(s.drop_first(), a, b);
    }
}

/// The characters before the first `a` or `b`.
fn cut_before(chars: &Vec<char>, a: char, b: char) -> (cut: Vec<char>)
    ensures
        cut@ == prefix_before(chars@, a, b),
{
    let ghost s = chars@;
    let mut cut: Vec<char> = Vec::new();
    let mut i: usize = 0;
    assert(s.skip(0) =~= s);
    while i < chars.len() && chars[i] != a && chars[i] != b
        invariant
            s == chars@,
            0 <= i <= s.len(),
            cut@ == s.take(i as int),
            prefix_before(s, a, b) == cut@ + prefix_before(s.skip(i as int), a, b),
        decreases s.len() - i,
    {
        proof {
            lemma_prefix_before_step(s, a, b, i as int);
            assert(s.take(i + 1) =~= s.take(i as int).push(s[i as int]));
            assert(cut@.push(s[i as int]) + prefix_before(s.skip(i + 1), a, b) =~= cut@ + (seq![
                s[i as int],
            ] + prefix_before(s.skip(i + 1), a, b)));
        }
        cut.push(chars[i]);
        i = i + 1;
    }
    proof {
        lemma_prefix_before_step(s, a, b, i as int);
        assert(cut@ + Seq::<char>::empty() =~= cut@);
    }
    cut
}

fn ascii_lower_char(c: char) -> (r: char)
    ensures
        r == ascii_lower(c),
{
    if 'A' <= c && c <= 'Z' {
        (((c as u32) + 32) as u8) as char
    } else {
        c
    }
}

fn char_at(s: &Vec<char>, k: usize, c: char) -> (b: bool)
    ensures
        b == (k < s@.len() && s@[k as int] == c),
{
    k < s.len() && s[k] == c
}

/// The candidates of one preferred language, as character vectors.
fn candidates_of(language: &str) -> (candidates: (Vec<char>, Vec<char>))
    ensures
        candidates.0@ == language_candidates(language@)[0],
        candidates.1@ == language_candidates(language@)[1],
        candidates.0@.len() <= language@.len() || candidates.0@.len() == 7,
        candidates.1@.len() <= language@.len(),
{
    let chars = chars_of(language);
    let mut dashes: Vec<char> = Vec::new();
    let mut i: usize = 0;
    while i < chars.len()
        invariant
            chars@ == language@,
            0 <= i <= chars@.len(),
            dashes@ == dashed(chars@).take(i as int),
        decreases chars@.len() - i,
    {
        let c = chars[i];
        dashes.push(if c == '_' { '-' } else { c });
        i = i + 1;
        assert(dashes@ =~= dashed(chars@).take(i as int));
    }
    assert(dashes@ =~= dashed(language@));
    let tag = cut_before(&dashes, '.', '@');
    let base = cut_before(&tag, '-', '-');
    let mut lower: Vec<char> = Vec::new();
    let mut k: usize = 0;
    while k < tag.len()
        invariant
            0 <= k <= tag@.len(),
            lower@ == lowered(tag@).take(k as int),
        decreases tag@.len() - k,
    {
        lower.push(ascii_lower_char(tag[k]));
        k = k + 1;
        assert(lower@ =~= lowered(tag@).take(k as int));
    }
    assert(lower@ =~= lowered(tag@));
    proof {
        lemma_prefix_before_len(dashed(language@), '.', '@');
        lemma_prefix_before_len(tag@, '-', '-');
    }
    let l = &lower;
    let zh = char_at(l, 0, 'z') && char_at(l, 1, 'h');
    let hant = zh && char_at(l, 2, '-') && char_at(l, 3, 'h') && char_at(l, 4, 'a') && char_at(
        l,
        5,
        'n',
    ) && char_at(l, 6, 't');
    let tw = zh && l.len() == 5 && char_at(l, 2, '-') && char_at(l, 3, 't') && char_at(l, 4, 'w');
    let hk = zh && l.len() == 5 && char_at(l, 2, '-') && char_at(l, 3, 'h') && char_at(l, 4, 'k');
    let ghost lw = lowered(tag@);
    proof {
        if hant {
            assert(lw.take(7) =~= seq!['z', 'h', '-', 'h', 'a', 'n', 't']);
        }
        if starts_with(lw, seq!['z', 'h', '-', 'h', 'a', 'n', 't']) {
            assert(lw.take(7)[6] == lw[6]);
            assert(lw.take(7)[5] == lw[5]);
            assert(lw.take(7)[4] == lw[4]);
            assert(lw.take(7)[3] == lw[3]);
            assert(lw.take(7)[2] == lw[2]);
            assert(lw.take(7)[1] == lw[1]);
            assert(lw.take(7)[0] == lw[0]);
        }
        if tw {
            assert(lw =~= seq!['z', 'h', '-', 't', 'w']);
        }
        if hk {
            assert(lw =~= seq!['z', 'h', '-', 'h', 'k']);
        }
        if zh {
            assert(lw.take(2) =~= seq!['z', 'h']);
        }
        if starts_with(lw, seq!['z', 'h']) {
            assert(lw.take(2)[1] == lw[1]);
            assert(lw.take(2)[0] == lw[0]);
        }
    }
    let first = if hant || tw || hk {
        let mut v: Vec<char> = Vec::new();
        v.push('z');
        v.push('h');
        v.push('-');
        v.push('H');
        v.push('a');
        v.push('n');
        v.push('t');
        assert(v@ =~= seq!['z', 'h', '-', 'H', 'a', 'n', 't']);
        v
    } else if zh {
        let mut v: Vec<char> = Vec::new();
        v.push('z');
        v.push('h');
        v.push('-');
        v.push('H');
        v.push('a');
        v.push('n');
        v.push('s');
        assert(v@ =~= seq!['z', 'h', '-', 'H', 'a', 'n', 's']);
        v
    } else {
        tag
    };
    (first, base)
}

/// Whether a candidate names a safe `.lproj` directory.
fn is_lproj_name(name: &Vec<char>) -> (b: bool)
    ensures
        b == lproj_name(name@),
{
    let mut i: usize = 0;
    while i < name.len()
        invariant
            0 <= i <= name@.len(),
            forall|j: int| 0 <= j < i ==> is_ascii_alnum(#[trigger] name@[j]) || name@[j] == '-',
        decreases name@.len() - i,
    {
        let c = name[i];
        let ok = ('0' <= c && c <= '9') || ('a' <= c && c <= 'z') || ('A' <= c && c <= 'Z') || c
            == '-';
        if !ok {
            return false;
        }
        i = i + 1;
    }
    true
}

/// The `.lproj` tables to try, in order, for the preferred languages (see
/// `lproj_plan`).
pub fn locale_plan(preferences: &[String]) -> (plan: Vec<String>)
    ensures
        string_views(plan@) == lproj_plan(preferences@.map_values(|p: String| p@)),
{
    let ghost langs = preferences@.map_values(|p: String| p@);
    let ghost cands = all_candidates(langs);
    let mut plan: Vec<String> = Vec::new();
    let mut i: usize = 0;
    assert(string_views(plan@) =~= Seq::<Seq<char>>::empty());
    assert(string_views(plan@) + plan_from(cands, 0) =~= plan_from(cands, 0));
    while i < preferences.len()
        invariant
            langs == preferences@.map_values(|p: String| p@),
            cands == all_candidates(langs),
            0 <= i <= preferences@.len(),
            string_views(plan@) + plan_from(cands, 2 * i) == plan_from(cands, 0),
        decreases preferences@.len() - i,
    {
        let language = preferences[i].as_str();
        let bytes = str_byte_len(language);
        let (first, base) = candidates_of(language);
        assert(langs[i as int] == language@);
        let mut pick: usize = 0;
        while pick < 2
            invariant
                langs == preferences@.map_values(|p: String| p@),
                cands == all_candidates(langs),
                0 <= i < preferences@.len(),
                langs[i as int] == language@,
                bytes as int == byte_len(language@),
                bytes <= isize::MAX,
                first@ == language_candidates(language@)[0],
                base@ == language_candidates(language@)[1],
                first@.len() <= language@.len() || first@.len() == 7,
                base@.len() <= language@.len(),
                0 <= pick <= 2,
                string_views(plan@) + plan_from(cands, 2 * i + pick) == plan_from(cands, 0),
            decreases 2 - pick,
        {
            let candidate = if pick == 0 { &first } else { &base };
            let ghost k: int = 2 * i + pick;
            assert(cands[k] == candidate@);
            if is_lproj_name(candidate) {
                if candidate.len() == 2 && candidate[0] == 'e' && candidate[1] == 'n' {
                    assert(candidate@ =~= seq!['e', 'n']);
                    assert(plan_from(cands, k) =~= Seq::<Seq<char>>::empty());
                    assert(string_views(plan@) + Seq::<Seq<char>>::empty() =~= string_views(
                        plan@,
                    ));
                    return plan;
                }
                proof {
                    if candidate@ == seq!['e', 'n'] {
                        assert(candidate@.len() == 2);
                        assert(candidate@[0] == 'e');
                    }
                    lemma_byte_len_at_least_len(language@);
                    assert(forall|j: int|
                        0 <= j < candidate@.len() ==> (#[trigger] candidate@[j] as u32) <= 0x7f) by {
                        assert forall|j: int| 0 <= j < candidate@.len() implies (
                        #[trigger] candidate@[j] as u32) <= 0x7f by {
                            assert(is_ascii_alnum(candidate@[j]) || candidate@[j] == '-');
                        }
                    }
                    lemma_byte_len_at_least_len(candidate@);
                }
                let name = string_from_chars(candidate);
                let ghost before = string_views(plan@);
                plan.push(name);
                assert(string_views(plan@) =~= before.push(candidate@));
                assert(string_views(plan@) + plan_from(cands, k + 1) =~= before + plan_from(
                    cands,
                    k,
                ));
            }
            pick = pick + 1;
        }
        i = i + 1;
    }
    assert(plan_from(cands, 2 * i as int) =~= Seq::<Seq<char>>::empty());
    assert(string_views(plan@) + Seq::<Seq<char>>::empty() =~= string_views(plan@));
    plan
}

proof fn lemma_plan_from_names(candidates: Seq<Seq<char>>, k: int)
    ensures
        forall|i: int|
            0 <= i < plan_from(candidates, k).len() ==> lproj_name(
                #[trigger] plan_from(candidates, k)[i],
            ) && plan_from(candidates, k)[i] != seq!['e', 'n'],
    decreases candidates.len() - k,
{
    if 0 <= k < candidates.len() {
        lemma_plan_from_names(candidates, k + 1);
        if lproj_name(candidates[k]) && candidates[k] != seq!['e', 'n'] {
            let rest = plan_from(candidates, k + 1);
            assert forall|i: int| 0 <= i < plan_from(candidates, k).len() implies lproj_name(
                #[trigger] plan_from(candidates, k)[i],
            ) && plan_from(candidates, k)[i] != seq!['e', 'n'] by {
                if i > 0 {
                    assert(plan_from(candidates, k)[i] == rest[i - 1]);
                }
            }
        }
    }
}

/// No language preference escapes its `.lproj` directory: every table the
/// plan names is made of ASCII letters, digits and `-`, and English (the
/// built-in labels) is never looked up on disk.
pub proof fn law_locale_plan_stays_in_lproj(languages: Seq<Seq<char>>)
    ensures
        forall|i: int|
            0 <= i < lproj_plan(languages).len() ==> lproj_name(#[trigger] lproj_plan(languages)[i])
                && lproj_plan(languages)[i] != seq!['e', 'n'],
{
    lemma_plan_from_names(all_candidates(languages), 0);
}

/// A later entry for a key replaces an earlier one; other keys keep theirs.
pub proof fn law_later_entry_wins(
    pairs: Seq<(Seq<char>, Seq<char>)>,
    key: Seq<char>,
    value: Seq<char>,
    other: Seq<char>,
)
    ensures
        table_of(pairs.push((key, value)))[key] == value,
        other != key ==> table_of(pairs.push((key, value))).contains_key(other) == table_of(
            pairs,
        ).contains_key(other) && table_of(pairs.push((key, value)))[other] == table_of(pairs)[other],
{
    assert(pairs.push((key, value)).drop_last() =~= pairs);
}

} // verus!
