//! A deliberately tiny media-type parser.
//!
//! Only what content-type negotiation for streamed bodies actually needs: the essence
//! (`type/subtype`) with parameters stripped, compared case-insensitively, plus awareness of
//! the structured-suffix convention (`application/cloudevents+json`).

use vstd::prelude::*;

verus! {

/// The characters with the Unicode property `White_Space`.
pub open spec fn is_white_space(c: char) -> bool {
    let n = c as u32;
    ||| 0x09 <= n <= 0x0d
    ||| n == 0x20
    ||| n == 0x85
    ||| n == 0xa0
    ||| n == 0x1680
    ||| 0x2000 <= n <= 0x200a
    ||| n == 0x2028
    ||| n == 0x2029
    ||| n == 0x202f
    ||| n == 0x205f
    ||| n == 0x3000
}

/// `text` without the whitespace at its ends.
pub open spec fn trimmed(text: Seq<char>) -> Seq<char>
    decreases text.len(),
{
    if text.len() == 0 {
        text
    } else if is_white_space(text.first()) {
        trimmed(text.drop_first())
    } else if is_white_space(text.last()) {
        trimmed(text.drop_last())
    } else {
        text
    }
}

/// An ASCII capital letter as the small one, any other character as it is.
pub open spec fn lower(c: char) -> char {
    if 'A' <= c <= 'Z' {
        (c as u32 + 32) as char
    } else {
        c
    }
}

/// Whether two texts are the same but for the case of ASCII letters.
pub open spec fn same_but_case(a: Seq<char>, b: Seq<char>) -> bool {
    a.map_values(|c: char| lower(c)) == b.map_values(|c: char| lower(c))
}

/// What stands before the first `c`, or all of it where there is none.
pub open spec fn before_first(text: Seq<char>, c: char) -> Seq<char>
    decreases text.len(),
{
    if text.len() == 0 || text[0] == c {
        seq![]
    } else {
        seq![text[0]] + before_first(text.drop_first(), c)
    }
}

/// What stands behind the first `c`, or nothing where there is none.
pub open spec fn behind_first(text: Seq<char>, c: char) -> Seq<char>
    decreases text.len(),
{
    if text.len() == 0 {
        seq![]
    } else if text[0] == c {
        text.drop_first()
    } else {
        behind_first(text.drop_first(), c)
    }
}

/// What stands behind the last `c`, if there is one.
pub open spec fn behind_last(text: Seq<char>, c: char) -> Option<Seq<char>>
    decreases text.len(),
{
    if text.len() == 0 {
        None
    } else if text.last() == c {
        Some(seq![])
    } else {
        match behind_last(text.drop_last(), c) {
            Some(behind) => Some(behind.push(text.last())),
            None => None,
        }
    }
}

/// `str::split_once` at a character: what stands before its first occurrence, and what stands
/// behind it; nothing where it does not occur.
#[verifier::external_body]
fn split_once(text: &str, c: char) -> (parts: Option<(&str, &str)>)
    ensures
        match parts {
            Some((before, behind)) => text@ == before@ + seq![c] + behind@ && !before@.contains(c),
            None => !text@.contains(c),
        },
{
    text.split_once(c)
}

/// `str::rsplit_once` at a character: what stands before its last occurrence, and what stands
/// behind it; nothing where it does not occur.
#[verifier::external_body]
fn rsplit_once(text: &str, c: char) -> (parts: Option<(&str, &str)>)
    ensures
        match parts {
            Some((before, behind)) => text@ == before@ + seq![c] + behind@ && !behind@.contains(c),
            None => !text@.contains(c),
        },
{
    text.rsplit_once(c)
}

/// `str::trim`: the text without the characters of the property `White_Space` at its ends.
#[verifier::external_body]
fn trim(text: &str) -> (inner: &str)
    ensures
        inner@ == trimmed(text@),
{
    text.trim()
}

/// `str::eq_ignore_ascii_case`: whether the texts are equal once their ASCII capitals are turned
/// into small letters.
#[verifier::external_body]
fn eq_ignore_ascii_case(a: &str, b: &str) -> (same: bool)
    ensures
        same == same_but_case(a@, b@),
{
    a.eq_ignore_ascii_case(b)
}

proof fn split_at_first(before: Seq<char>, c: char, behind: Seq<char>)
    requires
        !before.contains(c),
    ensures
        before_first(before + seq![c] + behind, c) == before,
        behind_first(before + seq![c] + behind, c) == behind,
    decreases before.len(),
{
    let text = before + seq![c] + behind;
    if before.len() == 0 {
        assert(text.drop_first() == behind);
    } else {
        let rest = before.drop_first();
        assert(before.contains(before[0]));
        assert forall|i: int| 0 <= i < rest.len() implies #[trigger] rest[i] != c by {
            assert(before.contains(before[i + 1]));
        }
        assert(text.drop_first() == rest + seq![c] + behind);
        split_at_first(rest, c, behind);
        assert(seq![before[0]] + rest == before);
    }
}

proof fn no_split(text: Seq<char>, c: char)
    requires
        !text.contains(c),
    ensures
        before_first(text, c) == text,
        behind_first(text, c) == Seq::<char>::empty(),
        behind_last(text, c) is None,
    decreases text.len(),
{
    if text.len() > 0 {
        let rest = text.drop_first();
        assert(text.contains(text[0]) && text.contains(text.last()));
        assert forall|i: int| 0 <= i < rest.len() implies #[trigger] rest[i] != c by {
            assert(text.contains(text[i + 1]));
        }
        no_split(rest, c);
        assert(seq![text[0]] + rest == text);
        let most = text.drop_last();
        assert forall|i: int| 0 <= i < most.len() implies #[trigger] most[i] != c by {
            assert(text.contains(text[i]));
        }
        no_split(most, c);
    }
}

proof fn split_at_last(before: Seq<char>, c: char, behind: Seq<char>)
    requires
        !behind.contains(c),
    ensures
        behind_last(before + seq![c] + behind, c) == Some(behind),
    decreases behind.len(),
{
    let text = before + seq![c] + behind;
    if behind.len() > 0 {
        let rest = behind.drop_last();
        assert(behind.contains(behind.last()));
        assert forall|i: int| 0 <= i < rest.len() implies #[trigger] rest[i] != c by {
            assert(behind.contains(behind[i]));
        }
        assert(text.drop_last() == before + seq![c] + rest);
        split_at_last(before, c, rest);
        assert(rest.push(behind.last()) == behind);
    }
}

/// A parsed `Content-Type` header value, borrowed from the header it came from.
#[derive(Debug, Clone, Copy, PartialEq, Eq)]
pub struct ContentType<'a> {
    essence: &'a str,
}

impl<'a> View for ContentType<'a> {
    type V = Seq<char>;

    /// The `type/subtype`.
    closed spec fn view(&self) -> Seq<char> {
        self.essence@
    }
}

/// The `type/subtype` of a raw header value.
pub open spec fn essence_of(raw: Seq<char>) -> Seq<char> {
    trimmed(before_first(raw, ';'))
}

/// The part behind the first `/` of an essence.
pub open spec fn subtype_of(essence: Seq<char>) -> Seq<char> {
    behind_first(essence, '/')
}

/// Whether an essence carries the structured suffix `+<suffix>`.
pub open spec fn carries_suffix(essence: Seq<char>, suffix: Seq<char>) -> bool {
    match behind_last(subtype_of(essence), '+') {
        Some(last) => same_but_case(last, suffix),
        None => false,
    }
}

/// Whether an essence is one of some names, whatever the case of its letters.
pub open spec fn matches_one(essence: Seq<char>, candidates: Seq<&str>) -> bool {
    exists|i: int|
        0 <= i < candidates.len() && same_but_case(essence, (#[trigger] candidates[i])@)
}

impl<'a> ContentType<'a> {
    /// Parse a raw header value, discarding any parameters (`; charset=utf-8` and friends).
    ///
    /// Never fails: a value this cannot make sense of simply matches nothing.
    pub fn parse(raw: &'a str) -> (ct: Self)
        ensures
            ct@ == essence_of(raw@),
    {
        let essence = match split_once(raw, ';') {
            Some((before, behind)) => {
                proof {
                    split_at_first(before@, ';', behind@);
                }
                before
            },
            None => {
                proof {
                    no_split(raw@, ';');
                }
                raw
            },
        };
        ContentType { essence: trim(essence) }
    }

    /// The `type/subtype`, with parameters and surrounding whitespace removed.
    pub fn essence(&self) -> (essence: &'a str)
        ensures
            essence@ == self@,
    {
        self.essence
    }

    /// Whether the essence equals `other`, ignoring ASCII case.
    ///
    /// RFC 9110 makes type and subtype case-insensitive, so `APPLICATION/JSON` matches.
    pub fn matches(&self, other: &str) -> (same: bool)
        ensures
            same == same_but_case(self@, other@),
    {
        eq_ignore_ascii_case(self.essence, other)
    }

    /// Whether the essence equals any of `candidates`, ignoring ASCII case.
    pub fn matches_any(&self, candidates: &[&str]) -> (any: bool)
        ensures
            any == matches_one(self@, candidates@),
    {
        let mut i: usize = 0;
        while i < candidates.len()
            invariant
                i <= candidates@.len(),
                forall|j: int|
                    0 <= j < i ==> !same_but_case(self@, (#[trigger] candidates@[j])@),
            decreases candidates@.len() - i,
        {
            if self.matches(candidates[i]) {
                return true;
            }
            i = i + 1;
        }
        false
    }

    /// The part after `/`, e.g. `cloudevents+json` for `application/cloudevents+json`.
    pub fn subtype(&self) -> (subtype: &'a str)
        ensures
            subtype@ == subtype_of(self@),
    {
        match split_once(self.essence, '/') {
            Some((before, behind)) => {
                proof {
                    split_at_first(before@, '/', behind@);
                }
                behind
            },
            None => {
                proof {
                    no_split(self.essence@, '/');
                    reveal_strlit("");
                }
                ""
            },
        }
    }

    /// Whether the subtype carries the structured suffix `+<suffix>`.
    ///
    /// `application/cloudevents+json` has the `json` suffix; `application/json` does not.
    pub fn has_suffix(&self, suffix: &str) -> (has: bool)
        ensures
            has == carries_suffix(self@, suffix@),
    {
        let subtype = self.subtype();
        match rsplit_once(subtype, '+') {
            Some((before, behind)) => {
                proof {
                    split_at_last(before@, '+', behind@);
                }
                eq_ignore_ascii_case(behind, suffix)
            },
            None => {
                proof {
                    no_split(subtype@, '+');
                }
                false
            },
        }
    }
}

/// What stands behind the first `c` makes no difference to what stands before it.
proof fn before_first_of_more(text: Seq<char>, c: char, more: Seq<char>)
    ensures
        before_first(text + seq![c] + more, c) == before_first(text, c),
    decreases text.len(),
{
    let whole = text + seq![c] + more;
    if text.len() > 0 && text[0] != c {
        before_first_of_more(text.drop_first(), c, more);
        assert(whole.drop_first() == text.drop_first() + seq![c] + more);
    }
}

proof fn before_first_holds_none(text: Seq<char>, c: char)
    ensures
        !before_first(text, c).contains(c),
    decreases text.len(),
{
    if text.len() > 0 && text[0] != c {
        let rest = before_first(text.drop_first(), c);
        before_first_holds_none(text.drop_first(), c);
        let all = before_first(text, c);
        assert forall|i: int| 0 <= i < all.len() implies #[trigger] all[i] != c by {
            if i > 0 {
                assert(all[i] == rest[i - 1]);
                assert(rest.contains(rest[i - 1]));
            }
        }
    }
}

proof fn trimmed_is_part(text: Seq<char>, c: char)
    requires
        !text.contains(c),
    ensures
        !trimmed(text).contains(c),
        trimmed(trimmed(text)) == trimmed(text),
    decreases text.len(),
{
    if text.len() > 0 {
        if is_white_space(text.first()) {
            assert forall|i: int| 0 <= i < text.drop_first().len() implies
                #[trigger] text.drop_first()[i] != c by {
                assert(text.contains(text[i + 1]));
            }
            trimmed_is_part(text.drop_first(), c);
        } else if is_white_space(text.last()) {
            assert forall|i: int| 0 <= i < text.drop_last().len() implies
                #[trigger] text.drop_last()[i] != c by {
                assert(text.contains(text[i]));
            }
            trimmed_is_part(text.drop_last(), c);
        }
    }
}

/// Parameters make no difference: what stands behind a `;` is not looked at.
pub proof fn law_parameters_are_ignored(media_type: Seq<char>, parameters: Seq<char>)
    ensures
        essence_of(media_type + seq![';'] + parameters) == essence_of(media_type),
{
    before_first_of_more(media_type, ';', parameters);
}

/// Parsing an essence again changes nothing.
pub proof fn law_an_essence_is_its_own(raw: Seq<char>)
    ensures
        essence_of(essence_of(raw)) == essence_of(raw),
{
    before_first_holds_none(raw, ';');
    trimmed_is_part(before_first(raw, ';'), ';');
    no_split(essence_of(raw), ';');
}

/// Nor does whitespace around the essence.
pub proof fn law_surrounding_whitespace_is_ignored(
    before: Seq<char>,
    essence: Seq<char>,
    behind: Seq<char>,
)
    requires
        forall|i: int| 0 <= i < before.len() ==> is_white_space(#[trigger] before[i]),
        forall|i: int| 0 <= i < behind.len() ==> is_white_space(#[trigger] behind[i]),
    ensures
        trimmed(before + essence + behind) == trimmed(essence),
    decreases before.len() + essence.len() + behind.len(),
{
    let text = before + essence + behind;
    if before.len() > 0 {
        let fewer = before.drop_first();
        assert forall|i: int| 0 <= i < fewer.len() implies is_white_space(#[trigger] fewer[i]) by {
            assert(fewer[i] == before[i + 1]);
        }
        assert(text.first() == before[0]);
        assert(text.drop_first() == fewer + essence + behind);
        law_surrounding_whitespace_is_ignored(fewer, essence, behind);
    } else if essence.len() > 0 && is_white_space(essence.first()) {
        assert(text.drop_first() == before + essence.drop_first() + behind);
        law_surrounding_whitespace_is_ignored(before, essence.drop_first(), behind);
    } else if behind.len() > 0 {
        assert(text.last() == behind.last());
        assert(text.drop_last() == before + essence + behind.drop_last());
        law_surrounding_whitespace_is_ignored(before, essence, behind.drop_last());
        if essence.len() == 0 && is_white_space(text.first()) && text.len() > 0 {
            assert(text == behind);
            all_white_space_is_trimmed(text);
        }
    } else {
        assert(text == essence);
    }
}

proof fn all_white_space_is_trimmed(text: Seq<char>)
    requires
        forall|i: int| 0 <= i < text.len() ==> is_white_space(#[trigger] text[i]),
    ensures
        trimmed(text) == Seq::<char>::empty(),
    decreases text.len(),
{
    if text.len() > 0 {
        let rest = text.drop_first();
        assert forall|i: int| 0 <= i < rest.len() implies is_white_space(#[trigger] rest[i]) by {
            assert(rest[i] == text[i + 1]);
        }
        assert(is_white_space(text[0]));
        all_white_space_is_trimmed(rest);
    }
}

/// The case of ASCII letters makes no difference to what an essence matches, on either side.
pub proof fn law_matching_ignores_case(a: Seq<char>, b: Seq<char>, candidate: Seq<char>)
    requires
        same_but_case(a, b),
    ensures
        same_but_case(a, candidate) == same_but_case(b, candidate),
        same_but_case(candidate, a) == same_but_case(candidate, b),
        same_but_case(b, a),
{
}

/// Two texts are the same but for case exactly where they are of one length and every two
/// characters at the same place are equal, or the same ASCII letter in two cases.
pub proof fn law_what_is_the_same_but_for_case(a: Seq<char>, b: Seq<char>)
    ensures
        same_but_case(a, b) <==> a.len() == b.len() && forall|i: int|
            0 <= i < a.len() ==> {
                let (x, y) = (#[trigger] a[i], b[i]);
                ||| x == y
                ||| 'A' <= x <= 'Z' && y as u32 == x as u32 + 32
                ||| 'A' <= y <= 'Z' && x as u32 == y as u32 + 32
            },
{
    let low_a = a.map_values(|c: char| lower(c));
    let low_b = b.map_values(|c: char| lower(c));
    if a.len() == b.len() {
        assert forall|i: int| 0 <= i < a.len() implies (low_a[i] == low_b[i]) == ({
            let (x, y) = (#[trigger] a[i], b[i]);
            ||| x == y
            ||| 'A' <= x <= 'Z' && y as u32 == x as u32 + 32
            ||| 'A' <= y <= 'Z' && x as u32 == y as u32 + 32
        }) by {
            letters_in_two_cases(a[i], b[i]);
        }
        if same_but_case(a, b) {
            assert forall|i: int| 0 <= i < a.len() implies ({
                let (x, y) = (#[trigger] a[i], b[i]);
                ||| x == y
                ||| 'A' <= x <= 'Z' && y as u32 == x as u32 + 32
                ||| 'A' <= y <= 'Z' && x as u32 == y as u32 + 32
            }) by {
                assert(low_a[i] == low_b[i]);
            }
        } else if forall|i: int|
            0 <= i < a.len() ==> ({
                let (x, y) = (#[trigger] a[i], b[i]);
                ||| x == y
                ||| 'A' <= x <= 'Z' && y as u32 == x as u32 + 32
                ||| 'A' <= y <= 'Z' && x as u32 == y as u32 + 32
            }) {
            assert(low_a =~= low_b);
        }
    } else {
        assert(low_a.len() != low_b.len());
    }
}

proof fn letters_in_two_cases(x: char, y: char)
    ensures
        (lower(x) == lower(y)) == {
            ||| x == y
            ||| 'A' <= x <= 'Z' && y as u32 == x as u32 + 32
            ||| 'A' <= y <= 'Z' && x as u32 == y as u32 + 32
        },
{
    if 'A' <= x <= 'Z' {
        assert((x as u32 + 32) as char as u32 == x as u32 + 32);
    }
    if 'A' <= y <= 'Z' {
        assert((y as u32 + 32) as char as u32 == y as u32 + 32);
    }
}

/// The essence of a header value is what stands ahead of its first `;`, without the spaces and tabs
/// around it.
pub proof fn law_the_essence_is_ahead_of_the_parameters(
    before: Seq<char>,
    essence: Seq<char>,
    behind: Seq<char>,
    parameters: Seq<char>,
)
    requires
        forall|i: int| 0 <= i < before.len() ==> (#[trigger] before[i] == ' ' || before[i] == '\t'),
        forall|i: int| 0 <= i < behind.len() ==> (#[trigger] behind[i] == ' ' || behind[i] == '\t'),
        !essence.contains(';'),
        essence.len() > 0,
        '!' <= essence.first() <= '~',
        '!' <= essence.last() <= '~',
    ensures
        essence_of(before + essence + behind) == essence,
        essence_of(before + essence + behind + seq![';'] + parameters) == essence,
{
    let text = before + essence + behind;
    assert forall|i: int| 0 <= i < text.len() implies #[trigger] text[i] != ';' by {
        if before.len() <= i < before.len() + essence.len() {
            assert(essence.contains(essence[i - before.len()]));
        }
    }
    assert(!text.contains(';'));
    no_split(text, ';');
    law_parameters_are_ignored(text, parameters);
    assert forall|i: int| 0 <= i < before.len() implies is_white_space(#[trigger] before[i]) by {}
    assert forall|i: int| 0 <= i < behind.len() implies is_white_space(#[trigger] behind[i]) by {}
    law_surrounding_whitespace_is_ignored(before, essence, behind);
    assert(trimmed(essence) == essence);
}

/// The subtype is what stands behind the first `/`, and the structured suffix what stands behind
/// the last `+` of that; without either there is none.
pub proof fn law_what_a_suffix_is(
    kind: Seq<char>,
    tree: Seq<char>,
    last: Seq<char>,
    suffix: Seq<char>,
)
    requires
        !kind.contains('/'),
        !last.contains('+'),
    ensures
        subtype_of(kind + seq!['/'] + tree) == tree,
        subtype_of(kind) == Seq::<char>::empty(),
        carries_suffix(kind + seq!['/'] + (tree + seq!['+'] + last), suffix) <==> same_but_case(
            last,
            suffix,
        ),
        !carries_suffix(kind + seq!['/'] + last, suffix),
        !carries_suffix(kind, suffix),
{
    split_at_first(kind, '/', tree);
    split_at_first(kind, '/', tree + seq!['+'] + last);
    split_at_first(kind, '/', last);
    split_at_last(tree, '+', last);
    no_split(last, '+');
    no_split(kind, '/');
    no_split(Seq::<char>::empty(), '+');
}

/// Trimming takes white space off both ends, all of it and nothing else.
pub proof fn law_what_is_trimmed(text: Seq<char>) -> (ends: (int, int))
    ensures
        0 <= ends.0 <= ends.1 <= text.len(),
        trimmed(text) == text.subrange(ends.0, ends.1),
        forall|i: int| 0 <= i < ends.0 ==> is_white_space(#[trigger] text[i]),
        forall|i: int| ends.1 <= i < text.len() ==> is_white_space(#[trigger] text[i]),
        ends.0 < ends.1 ==> !is_white_space(text[ends.0]) && !is_white_space(text[ends.1 - 1]),
    decreases text.len(),
{
    if text.len() == 0 {
        assert(text.subrange(0, 0) == text);
        (0, 0)
    } else if is_white_space(text[0]) {
        let rest = text.drop_first();
        let (from, to) = law_what_is_trimmed(rest);
        assert(rest.subrange(from, to) == text.subrange(from + 1, to + 1));
        assert forall|i: int| 0 <= i < from + 1 implies is_white_space(#[trigger] text[i]) by {
            if i > 0 {
                assert(rest[i - 1] == text[i]);
            }
        }
        assert forall|i: int| to + 1 <= i < text.len() implies is_white_space(
            #[trigger] text[i],
        ) by {
            assert(rest[i - 1] == text[i]);
        }
        (from + 1, to + 1)
    } else if is_white_space(text[text.len() - 1]) {
        let most = text.drop_last();
        let (from, to) = law_what_is_trimmed(most);
        assert(most.subrange(from, to) == text.subrange(from, to));
        assert forall|i: int| 0 <= i < from implies is_white_space(#[trigger] text[i]) by {
            assert(most[i] == text[i]);
        }
        assert forall|i: int| to <= i < text.len() implies is_white_space(#[trigger] text[i]) by {
            if i < most.len() {
                assert(most[i] == text[i]);
            }
        }
        (from, to)
    } else {
        assert(text.subrange(0, text.len() as int) == text);
        (0, text.len() as int)
    }
}

/// Whatever a header value holds, what stands ahead of its first `;` is the media type, once the white
/// space around it is taken off.
pub proof fn law_any_value_is_parsed(
    raw: &str,
    front: Seq<char>,
    parameters: Seq<char>,
    parsed: ContentType<'_>,
) -> (ends: (int, int))
    requires
        call_ensures(ContentType::parse, (raw,), parsed),
        !front.contains(';'),
        raw@ == front || raw@ == front + seq![';'] + parameters,
    ensures
        0 <= ends.0 <= ends.1 <= front.len(),
        parsed@ == front.subrange(ends.0, ends.1),
        forall|i: int| 0 <= i < ends.0 ==> is_white_space(#[trigger] front[i]),
        forall|i: int| ends.1 <= i < front.len() ==> is_white_space(#[trigger] front[i]),
        ends.0 < ends.1 ==> !is_white_space(front[ends.0]) && !is_white_space(front[ends.1 - 1]),
{
    if raw@ == front {
        no_split(front, ';');
    } else {
        split_at_first(front, ';', parameters);
    }
    law_what_is_trimmed(front)
}

/// White space is what Unicode says it is: of the ASCII characters, the space and those from the tab to
/// the carriage return.
pub proof fn law_what_is_white_space(c: char)
    ensures
        c as u32 <= 0x7f ==> (is_white_space(c) <==> c == ' ' || ('\t' <= c <= '\r')),
        c as u32 > 0x3000 ==> !is_white_space(c),
        c as u32 == 0x85 || c as u32 == 0xa0 || c as u32 == 0x1680 || (0x2000 <= c as u32 <= 0x200a)
            || c as u32 == 0x2028 || c as u32 == 0x2029 || c as u32 == 0x202f || c as u32 == 0x205f
            || c as u32 == 0x3000 ==> is_white_space(c),
{
}

} // verus!
