//! The filter directives of a log, and which of them can be handed to their parser.
//!
//! The parser takes a list of directives, parted by commas, and reads one after the other until
//! it refuses one. It walks over a directive without the white space around it, and takes
//! slices, at the places that it found there, of the directive with the white space. Where white
//! space comes first these slices lie too far in front, and one that starts or ends inside a
//! character makes it panic.
use vstd::prelude::*;
use vstd::string::*;
use vstd::utf8::{
    encode_utf8, encode_utf8_valid_utf8, is_ascii_chars, is_ascii_chars_encode_utf8,
    is_char_boundary, is_char_boundary_iff_not_is_continuation_byte,
    is_char_boundary_start_end_of_seq,
};

verus! {

/// Why a text is no list of filter directives, or none if it is one, as tracing-subscriber
/// reads it.
pub uninterp spec fn filter_error(directives: Seq<char>) -> Option<Seq<char>>;

/// The characters that Unicode counts as white space.
pub open spec fn is_white_space(c: char) -> bool {
    let n = c as u32;
    ||| 0x9 <= n <= 0xd
    ||| n == 0x20
    ||| n == 0x85
    ||| n == 0xa0
    ||| n == 0x1680
    ||| 0x2000 <= n <= 0x200a
    ||| n == 0x2028
    ||| n == 0x2029
    ||| n == 0x202f
    ||| n == 0x205f
    ||| n == 0x3000
}

/// How many characters of white space a text begins with.
pub open spec fn leading_space(text: Seq<char>) -> nat
    decreases text.len(),
{
    if text.len() == 0 || !is_white_space(text[0]) {
        0
    } else {
        1 + leading_space(text.drop_first())
    }
}

/// A directive without the white space that it begins with. That at its end matters for no
/// slice.
pub open spec fn trimmed(directive: Seq<char>) -> Seq<char> {
    directive.skip(leading_space(directive) as int)
}

/// The first place, from `from` on, that holds one of two characters.
pub open spec fn find(text: Seq<char>, from: int, a: char, b: char) -> Option<int>
    decreases text.len() - from,
{
    if from < 0 || from >= text.len() {
        None
    } else if text[from] == a || text[from] == b {
        Some(from)
    } else {
        find(text, from + 1, a, b)
    }
}

/// The place after `n` characters of the trimmed directive, counted in bytes, is between two
/// characters of the directive with its white space.
pub open spec fn cuts_between(directive: Seq<char>, n: int) -> bool {
    is_char_boundary(encode_utf8(directive), encode_utf8(trimmed(directive).take(n)).len() as int)
}

/// A level is sliced off between characters: if at `n` there is the equals sign before it.
pub open spec fn level_cut(directive: Seq<char>, n: int) -> bool {
    let text = trimmed(directive);
    0 <= n < text.len() && text[n] == '=' ==> cuts_between(directive, n + 1)
}

/// A directive up to the brace at `n`, which ends its fields, and with its bracket closed.
pub open spec fn closed_after_fields(directive: Seq<char>, n: int) -> Seq<char> {
    directive.take(leading_space(directive) + n + 1).push(']')
}

/// The fields from `n` on are sliced out between characters, and so is the level after them, if
/// the fields are not refused.
pub open spec fn fields_cut(directive: Seq<char>, n: int) -> bool {
    let text = trimmed(directive);
    match find(text, n, '}', '}') {
        None => true,
        Some(end) => {
            &&& cuts_between(directive, n)
            &&& cuts_between(directive, end)
            &&& end + 1 < text.len() && text[end + 1] == ']' && filter_error(
                closed_after_fields(directive, end),
            ) is None ==> level_cut(directive, end + 2)
        },
    }
}

/// The span from `n` on is sliced out between characters, and so is what follows it.
pub open spec fn span_cut(directive: Seq<char>, n: int) -> bool {
    let text = trimmed(directive);
    match find(text, n, ']', '{') {
        None => true,
        Some(end) => {
            &&& cuts_between(directive, n)
            &&& cuts_between(directive, end)
            &&& if text[end] == ']' {
                level_cut(directive, end + 1)
            } else {
                fields_cut(directive, end + 1)
            }
        },
    }
}

/// The target that the directive begins with is sliced off between characters, and so is what
/// follows it.
pub open spec fn target_cut(directive: Seq<char>) -> bool {
    let text = trimmed(directive);
    match find(text, 1, '=', '[') {
        None => true,
        Some(end) => {
            &&& cuts_between(directive, end)
            &&& if text[end] == '=' {
                level_cut(directive, end)
            } else {
                span_cut(directive, end + 1)
            }
        },
    }
}

/// Every slice that the parser takes of a directive is between characters. A first character
/// that is refused by itself ends the directive before any slice.
pub open spec fn directive_cut(directive: Seq<char>) -> bool {
    let text = trimmed(directive);
    if text.len() == 0 {
        true
    } else if text[0] == '[' {
        span_cut(directive, 1)
    } else {
        filter_error(seq![text[0]]) is None ==> target_cut(directive)
    }
}

/// Where the last directive of a list begins.
pub open spec fn last_directive(list: Seq<char>) -> nat
    decreases list.len(),
{
    if list.len() == 0 || list.last() == ',' {
        list.len()
    } else {
        last_directive(list.drop_last())
    }
}

/// Every slice that the parser takes of a list of directives is between characters. A directive
/// is read only where those before it are not refused.
pub open spec fn sliced_between_chars(list: Seq<char>) -> bool
    decreases list.len(),
{
    let start = last_directive(list);
    if 0 < start <= list.len() {
        let before = list.take(start - 1);
        &&& sliced_between_chars(before)
        &&& filter_error(before) is None ==> directive_cut(list.skip(start as int))
    } else {
        directive_cut(list)
    }
}

/// `EnvFilter::try_new` of tracing-subscriber: whether the text is a list of filter directives,
/// and if not, the displayed reason. It panics exactly where it slices a directive inside a
/// character.
#[verifier::external_body]
pub(crate) fn check_filter(directives: &str) -> (checked: Result<(), String>)
    requires
        sliced_between_chars(directives@),
    ensures
        (match checked {
            Ok(_) => filter_error(directives@) is None,
            Err(reason) => filter_error(directives@) == Some(reason@),
        }),
{
    match tracing_subscriber::EnvFilter::try_new(directives) {
        Ok(_) => Ok(()),
        Err(err) => Err(err.to_string()),
    }
}

/// The encoding of two texts is that of the first and then that of the second.
proof fn lemma_encode_concat(a: Seq<char>, b: Seq<char>)
    ensures
        encode_utf8(a + b) == encode_utf8(a) + encode_utf8(b),
    decreases a.len(),
{
    if a.len() == 0 {
        assert(a + b =~= b);
        assert(encode_utf8(a) + encode_utf8(b) =~= encode_utf8(b));
    } else {
        lemma_encode_concat(a.drop_first(), b);
        assert((a + b).drop_first() =~= a.drop_first() + b);
        assert(encode_utf8(a + b) =~= encode_utf8(a) + encode_utf8(b));
    }
}

/// A text has no fewer bytes than characters.
proof fn lemma_encode_len(text: Seq<char>)
    ensures
        encode_utf8(text).len() >= text.len(),
    decreases text.len(),
{
    if text.len() > 0 {
        lemma_encode_len(text.drop_first());
    }
}

/// The white space that a text begins with: all of it, and no more.
proof fn lemma_leading_space(text: Seq<char>)
    ensures
        leading_space(text) <= text.len(),
        forall|i: int| 0 <= i < leading_space(text) ==> is_white_space(#[trigger] text[i]),
        leading_space(text) < text.len() ==> !is_white_space(text[leading_space(text) as int]),
    decreases text.len(),
{
    if text.len() > 0 && is_white_space(text[0]) {
        let rest = text.drop_first();
        lemma_leading_space(rest);
        assert forall|i: int| 0 <= i < leading_space(text) implies is_white_space(
            #[trigger] text[i],
        ) by {
            if i > 0 {
                assert(rest[i - 1] == text[i]);
            }
        }
    }
}

/// So much white space, then another character: that is how it begins.
proof fn lemma_leading_space_is(text: Seq<char>, n: nat)
    requires
        n < text.len(),
        forall|i: int| 0 <= i < n ==> is_white_space(#[trigger] text[i]),
        !is_white_space(text[n as int]),
    ensures
        leading_space(text) == n,
    decreases n,
{
    if n > 0 {
        let rest = text.drop_first();
        assert(is_white_space(text[0]));
        assert forall|i: int| 0 <= i < n - 1 implies is_white_space(#[trigger] rest[i]) by {
            assert(rest[i] == text[i + 1]);
        }
        lemma_leading_space_is(rest, (n - 1) as nat);
    }
}

/// What is found is in the text, not before `from`, and one of the two.
proof fn lemma_find(text: Seq<char>, from: int, a: char, b: char)
    requires
        find(text, from, a, b) is Some,
    ensures
        0 <= from <= find(text, from, a, b)->0 < text.len(),
        text[find(text, from, a, b)->0] == a || text[find(text, from, a, b)->0] == b,
    decreases text.len() - from,
{
    if text[from] != a && text[from] != b {
        lemma_find(text, from + 1, a, b);
    }
}

/// What is found stays found where nothing up to it is changed.
proof fn lemma_find_same(text: Seq<char>, other: Seq<char>, from: int, a: char, b: char)
    requires
        find(text, from, a, b) is Some,
        find(text, from, a, b)->0 < other.len(),
        forall|i: int|
            0 <= i <= find(text, from, a, b)->0 ==> #[trigger] other[i] == text[i],
    ensures
        find(other, from, a, b) == find(text, from, a, b),
    decreases text.len() - from,
{
    lemma_find(text, from, a, b);
    assert(other[from] == text[from]);
    if text[from] != a && text[from] != b {
        lemma_find_same(text, other, from + 1, a, b);
    }
}

/// A place is between characters or not, whatever follows the character after it.
proof fn lemma_cut_same(directive: Seq<char>, other: Seq<char>, n: int)
    requires
        leading_space(directive) == leading_space(other),
        0 <= n < trimmed(directive).len(),
        n < trimmed(other).len(),
        directive.take(leading_space(directive) + n + 1) == other.take(
            leading_space(directive) + n + 1,
        ),
    ensures
        cuts_between(directive, n) == cuts_between(other, n),
{
    lemma_leading_space(directive);
    lemma_leading_space(other);
    let w = leading_space(directive) as int;
    let head = directive.take(w + n + 1);
    let text = trimmed(directive);
    assert(directive =~= head + directive.skip(w + n + 1));
    assert(other =~= head + other.skip(w + n + 1));
    lemma_encode_concat(head, directive.skip(w + n + 1));
    lemma_encode_concat(head, other.skip(w + n + 1));
    assert(text.take(n) =~= head.skip(w).take(n));
    assert(trimmed(other).take(n) =~= head.skip(w).take(n));
    let at = encode_utf8(text.take(n)).len() as int;
    assert(head =~= directive.take(w) + text.take(n) + seq![text[n]]);
    lemma_encode_concat(directive.take(w) + text.take(n), seq![text[n]]);
    lemma_encode_concat(directive.take(w), text.take(n));
    lemma_encode_len(seq![text[n]]);
    encode_utf8_valid_utf8(directive);
    encode_utf8_valid_utf8(other);
    is_char_boundary_iff_not_is_continuation_byte(encode_utf8(directive), at);
    is_char_boundary_iff_not_is_continuation_byte(encode_utf8(other), at);
}

/// The parser, at the start of the span at `n`, has sliced between characters so far.
spec fn reaches_span(directive: Seq<char>, n: int) -> bool {
    let text = trimmed(directive);
    &&& text.len() > 0
    &&& text[0] == '[' ==> n == 1
    &&& text[0] != '[' ==> find(text, 1, '=', '[') == Some(n - 1) && text[n - 1] == '['
        && cuts_between(directive, n - 1)
}

/// Where the fields of a directive are sliced out between characters, the directive that is
/// closed after them is sliced so.
proof fn lemma_closed_after_fields(directive: Seq<char>, n: int)
    requires
        reaches_span(directive, n),
        cuts_between(directive, n),
        ({
            let text = trimmed(directive);
            let open = find(text, n, ']', '{');
            let close = find(text, open->0 + 1, '}', '}');
            &&& open is Some && text[open->0] == '{'
            &&& close is Some
            &&& cuts_between(directive, open->0)
            &&& cuts_between(directive, open->0 + 1)
            &&& cuts_between(directive, close->0)
        }),
        !directive.contains(','),
    ensures
        ({
            let text = trimmed(directive);
            let end = find(text, find(text, n, ']', '{')->0 + 1, '}', '}')->0;
            sliced_between_chars(closed_after_fields(directive, end))
        }),
{
    lemma_leading_space(directive);
    let w = leading_space(directive) as int;
    let text = trimmed(directive);
    let open = find(text, n, ']', '{')->0;
    let end = find(text, open + 1, '}', '}')->0;
    lemma_find(text, n, ']', '{');
    lemma_find(text, open + 1, '}', '}');
    let closed = closed_after_fields(directive, end);
    let other = trimmed(closed);
    assert forall|i: int| 0 <= i < w implies is_white_space(#[trigger] closed[i]) by {
        assert(closed[i] == directive[i]);
    }
    assert(closed[w] == text[0]);
    lemma_leading_space_is(closed, w as nat);
    assert(other =~= text.take(end + 1).push(']'));
    assert forall|i: int| 0 <= i <= end implies cuts_between(directive, i) == cuts_between(
        closed,
        i,
    ) by {
        assert(directive.take(w + i + 1) =~= closed.take(w + i + 1));
        lemma_cut_same(directive, closed, i);
    }
    if text[0] != '[' {
        lemma_find_same(text, other, 1, '=', '[');
    }
    lemma_find_same(text, other, n, ']', '{');
    lemma_find_same(text, other, open + 1, '}', '}');
    assert forall|i: int| 0 <= i < closed.len() implies closed[i] != ',' by {
        if i < w + end + 1 {
            assert(closed[i] == directive[i]);
        }
    }
    assert(fields_cut(closed, open + 1));
    assert(cuts_between(closed, n) && cuts_between(closed, open));
    assert(other[open] == text[open] && other[0] == text[0]);
    assert(span_cut(closed, n));
    if text[0] != '[' {
        lemma_find(text, 1, '=', '[');
        assert(cuts_between(closed, n - 1) && other[n - 1] == text[n - 1]);
        assert(target_cut(closed));
    }
    lemma_one_directive(closed);
}

/// Without a comma a list is one directive.
proof fn lemma_one_directive(list: Seq<char>)
    requires
        forall|i: int| 0 <= i < list.len() ==> list[i] != ',',
    ensures
        last_directive(list) == 0,
        sliced_between_chars(list) == directive_cut(list),
    decreases list.len(),
{
    if list.len() > 0 {
        assert(list.last() == list[list.len() - 1]);
        lemma_one_directive(list.drop_last());
    }
}

/// The last directive of a list has no comma, and follows one if it is not the first.
proof fn lemma_last_directive(list: Seq<char>)
    ensures
        last_directive(list) <= list.len(),
        forall|i: int| last_directive(list) <= i < list.len() ==> list[i] != ',',
    decreases list.len(),
{
    if list.len() > 0 && list.last() != ',' {
        lemma_last_directive(list.drop_last());
        assert forall|i: int| last_directive(list) <= i < list.len() implies list[i] != ',' by {
            if i < list.len() - 1 {
                assert(list.drop_last()[i] == list[i]);
            }
        }
    }
}

/// Directives in ASCII are sliced between characters, whatever white space they begin with.
pub proof fn lemma_ascii_is_sliced(list: Seq<char>)
    requires
        is_ascii_chars(list),
    ensures
        sliced_between_chars(list),
    decreases list.len(),
{
    lemma_last_directive(list);
    let start = last_directive(list);
    if start > 0 {
        let before = list.take(start - 1);
        let directive = list.skip(start as int);
        assert(forall|i: int| 0 <= i < before.len() ==> before[i] == list[i]);
        assert(forall|i: int| 0 <= i < directive.len() ==> directive[i] == list[start + i]);
        lemma_ascii_is_sliced(before);
        lemma_ascii_directive(directive);
    } else {
        lemma_ascii_directive(list);
    }
}

proof fn lemma_ascii_directive(directive: Seq<char>)
    requires
        is_ascii_chars(directive),
    ensures
        directive_cut(directive),
{
    lemma_leading_space(directive);
    let text = trimmed(directive);
    assert forall|n: int| 0 <= n <= text.len() implies cuts_between(directive, n) by {
        let head = text.take(n);
        assert(forall|i: int|
            0 <= i < n ==> head[i] == directive[leading_space(directive) + i]);
        is_ascii_chars_encode_utf8(head);
        is_ascii_chars_encode_utf8(directive);
        encode_utf8_valid_utf8(directive);
        if n < directive.len() {
            is_char_boundary_iff_not_is_continuation_byte(encode_utf8(directive), n);
            assert(directive[n] as nat <= 0x7f);
        } else {
            is_char_boundary_start_end_of_seq(encode_utf8(directive));
        }
    }
    lemma_all_cut(directive);
}

/// A directive more is read exactly where the list before it is not refused.
pub proof fn lemma_directive_is_added(list: Seq<char>, directive: Seq<char>)
    requires
        forall|i: int| 0 <= i < directive.len() ==> directive[i] != ',',
    ensures
        sliced_between_chars(list.push(',') + directive) <==> sliced_between_chars(list) && (
        filter_error(list) is None ==> directive_cut(directive)),
        sliced_between_chars(directive) <==> directive_cut(directive),
{
    let more = list.push(',') + directive;
    lemma_one_directive(directive);
    lemma_last_directive_is(list.push(','), directive);
    assert(more.take(list.len() as int) =~= list);
    assert(more.skip(list.len() as int + 1) =~= directive);
}

proof fn lemma_last_directive_is(list: Seq<char>, directive: Seq<char>)
    requires
        list.len() > 0,
        list.last() == ',',
        forall|i: int| 0 <= i < directive.len() ==> directive[i] != ',',
    ensures
        last_directive(list + directive) == list.len(),
    decreases directive.len(),
{
    if directive.len() == 0 {
        assert(list + directive =~= list);
    } else {
        let init = directive.drop_last();
        assert((list + directive).drop_last() =~= list + init);
        assert((list + directive).last() == directive[directive.len() - 1]);
        lemma_last_directive_is(list, init);
    }
}

/// The place after the first characters of a text is between characters of it.
proof fn lemma_prefix_is_boundary(text: Seq<char>, n: int)
    requires
        0 <= n <= text.len(),
    ensures
        is_char_boundary(encode_utf8(text), encode_utf8(text.take(n)).len() as int),
{
    let head = text.take(n);
    let rest = text.skip(n);
    assert(text =~= head + rest);
    lemma_encode_concat(head, rest);
    encode_utf8_valid_utf8(text);
    encode_utf8_valid_utf8(rest);
    let at = encode_utf8(head).len() as int;
    if rest.len() == 0 {
        assert(encode_utf8(text) =~= encode_utf8(head));
        is_char_boundary_start_end_of_seq(encode_utf8(text));
    } else {
        lemma_encode_len(rest);
        is_char_boundary_start_end_of_seq(encode_utf8(rest));
        is_char_boundary_iff_not_is_continuation_byte(encode_utf8(rest), 0);
        is_char_boundary_iff_not_is_continuation_byte(encode_utf8(text), at);
    }
}

/// A directive that does not begin with white space is sliced between characters, whatever
/// characters it holds.
pub proof fn lemma_unpadded_is_sliced(directive: Seq<char>)
    requires
        directive.len() > 0 ==> !is_white_space(directive[0]),
    ensures
        directive_cut(directive),
{
    let text = trimmed(directive);
    assert(text =~= directive);
    assert forall|n: int| 0 <= n <= text.len() implies cuts_between(directive, n) by {
        lemma_prefix_is_boundary(directive, n);
    }
    lemma_all_cut(directive);
}

/// Where every place is between characters, every slice is.
proof fn lemma_all_cut(directive: Seq<char>)
    requires
        forall|n: int| 0 <= n <= trimmed(directive).len() ==> cuts_between(directive, n),
    ensures
        directive_cut(directive),
{
    let text = trimmed(directive);
    assert forall|n: int| 0 <= n implies fields_cut(directive, n) by {
        if find(text, n, '}', '}') is Some {
            lemma_find(text, n, '}', '}');
        }
    }
    assert forall|n: int| 0 <= n implies span_cut(directive, n) by {
        if find(text, n, ']', '{') is Some {
            lemma_find(text, n, ']', '{');
        }
    }
    if find(text, 1, '=', '[') is Some {
        lemma_find(text, 1, '=', '[');
    }
}

/// A directive without an equals sign or an opening bracket is sliced between characters,
/// whatever white space it begins with.
pub proof fn lemma_plain_is_sliced(directive: Seq<char>)
    requires
        forall|i: int| 0 <= i < directive.len() ==> directive[i] != '=' && directive[i] != '[',
    ensures
        directive_cut(directive),
{
    lemma_leading_space(directive);
    let text = trimmed(directive);
    assert(forall|i: int|
        0 <= i < text.len() ==> text[i] == directive[leading_space(directive) + i]);
    if find(text, 1, '=', '[') is Some {
        lemma_find(text, 1, '=', '[');
    }
}

/// A target whose end, counted from the start of the white space before it, is inside a
/// character is not sliced between characters.
pub proof fn lemma_cut_target_is_found(space: Seq<char>, target: Seq<char>, rest: Seq<char>)
    requires
        forall|i: int| 0 <= i < space.len() ==> is_white_space(#[trigger] space[i]),
        target.len() > 0,
        !is_white_space(target[0]),
        filter_error(seq![target[0]]) is None,
        target[0] != '[',
        forall|i: int| 1 <= i < target.len() ==> target[i] != '=' && target[i] != '[',
        rest.len() > 0 && (rest[0] == '=' || rest[0] == '['),
        !is_char_boundary(
            encode_utf8(space + target + rest),
            encode_utf8(target).len() as int,
        ),
    ensures
        !directive_cut(space + target + rest),
{
    let directive = space + target + rest;
    assert forall|i: int| 0 <= i < space.len() implies is_white_space(#[trigger] directive[i]) by {
        assert(directive[i] == space[i]);
    }
    assert(directive[space.len() as int] == target[0]);
    lemma_leading_space_is(directive, space.len());
    let text = trimmed(directive);
    assert(text =~= target + rest);
    assert(text.take(target.len() as int) =~= target);
    lemma_find_is(text, 1, target.len() as int, '=', '[');
}

/// The first place that holds one of two characters is found.
proof fn lemma_find_is(text: Seq<char>, from: int, at: int, a: char, b: char)
    requires
        0 <= from <= at < text.len(),
        text[at] == a || text[at] == b,
        forall|i: int| from <= i < at ==> text[i] != a && text[i] != b,
    ensures
        find(text, from, a, b) == Some(at),
    decreases at - from,
{
    if from < at {
        lemma_find_is(text, from + 1, at, a, b);
    }
}

fn is_space(c: char) -> (space: bool)
    ensures
        space == is_white_space(c),
{
    let n: u32 = c as u32;
    (0x9 <= n && n <= 0xd) || n == 0x20 || n == 0x85 || n == 0xa0 || n == 0x1680 || (0x2000 <= n
        && n <= 0x200a) || n == 0x2028 || n == 0x2029 || n == 0x202f || n == 0x205f || n == 0x3000
}

fn count_leading_space(text: &str) -> (count: usize)
    ensures
        count == leading_space(text@),
{
    let len: usize = text.unicode_len();
    let mut n: usize = 0;
    while n < len && is_space(text.get_char(n))
        invariant
            n <= len,
            len == text@.len(),
            forall|i: int| 0 <= i < n ==> is_white_space(#[trigger] text@[i]),
        decreases len - n,
    {
        n += 1;
    }
    proof {
        lemma_leading_space(text@);
        if n < len {
            lemma_leading_space_is(text@, n as nat);
        } else if leading_space(text@) < len {
            assert(is_white_space(text@[leading_space(text@) as int]));
        }
    }
    n
}

fn find_from(text: &str, from: usize, a: char, b: char) -> (found: Option<usize>)
    ensures
        found is Some <==> find(text@, from as int, a, b) is Some,
        found is Some ==> found->0 == find(text@, from as int, a, b)->0,
        found is Some ==> from <= found->0 < text@.len(),
{
    let len: usize = text.unicode_len();
    let mut n: usize = from;
    while n < len
        invariant
            from <= n,
            len == text@.len(),
            find(text@, from as int, a, b) == find(text@, n as int, a, b),
        decreases len - n,
    {
        let c = text.get_char(n);
        if c == a || c == b {
            return Some(n);
        }
        n += 1;
    }
    None
}

/// Whether the place after `n` characters of the trimmed directive is between characters.
fn is_cut_between(directive: &str, text: &str, n: usize) -> (between: bool)
    requires
        text@ == trimmed(directive@),
        n <= text@.len(),
    ensures
        between == cuts_between(directive@, n as int),
{
    let head = text.substring_char(0, n);
    assert(head@ =~= text@.take(n as int));
    directive.is_char_boundary(head.as_bytes().len())
}

fn is_level_cut(directive: &str, text: &str, n: usize) -> (cut: bool)
    requires
        text@ == trimmed(directive@),
    ensures
        cut == level_cut(directive@, n as int),
{
    if n < text.unicode_len() && text.get_char(n) == '=' {
        is_cut_between(directive, text, n + 1)
    } else {
        true
    }
}

fn is_span_cut(directive: &str, text: &str, n: usize) -> (cut: bool)
    requires
        text@ == trimmed(directive@),
        reaches_span(directive@, n as int),
        !directive@.contains(','),
    ensures
        cut == span_cut(directive@, n as int),
{
    let len: usize = text.unicode_len();
    let end: usize = match find_from(text, n, ']', '{') {
        Some(end) => end,
        None => {
            return true;
        },
    };
    if !is_cut_between(directive, text, n) || !is_cut_between(directive, text, end) {
        return false;
    }
    if text.get_char(end) == ']' {
        return is_level_cut(directive, text, end + 1);
    }
    let close: usize = match find_from(text, end + 1, '}', '}') {
        Some(close) => close,
        None => {
            return true;
        },
    };
    if !is_cut_between(directive, text, end + 1) || !is_cut_between(directive, text, close) {
        return false;
    }
    if close + 1 < len && text.get_char(close + 1) == ']' {
        let space: usize = count_leading_space(directive);
        let whole: usize = directive.unicode_len();
        proof {
            lemma_find(text@, n as int, ']', '{');
            lemma_leading_space(directive@);
            lemma_closed_after_fields(directive@, n as int);
            reveal_strlit("]");
        }
        assert(space + close + 1 <= whole);
        let closed = directive.substring_char(0, space + close + 1).to_owned().concat("]");
        assert(closed@ =~= closed_after_fields(directive@, close as int));
        if check_filter(closed.as_str()).is_ok() {
            return is_level_cut(directive, text, close + 2);
        }
    }
    true
}

/// Whether the parser slices a directive between characters only.
fn is_directive_cut(directive: &str) -> (cut: bool)
    requires
        !directive@.contains(','),
    ensures
        cut == directive_cut(directive@),
{
    let space: usize = count_leading_space(directive);
    let whole: usize = directive.unicode_len();
    proof {
        lemma_leading_space(directive@);
    }
    let text = directive.substring_char(space, whole);
    assert(text@ =~= trimmed(directive@));
    if text.unicode_len() == 0 {
        return true;
    }
    if text.get_char(0) == '[' {
        return is_span_cut(directive, text, 1);
    }
    let first = text.substring_char(0, 1);
    proof {
        assert(first@ =~= seq![text@[0]]);
        assert(text@[0] == directive@[space as int]);
        lemma_leading_space_is(first@, 0);
        assert(trimmed(first@) =~= first@);
        lemma_one_directive(first@);
    }
    if check_filter(first).is_err() {
        return true;
    }
    match find_from(text, 1, '=', '[') {
        Some(end) => {
            if !is_cut_between(directive, text, end) {
                return false;
            }
            if text.get_char(end) == '=' {
                is_level_cut(directive, text, end)
            } else {
                proof {
                    lemma_find(text@, 1, '=', '[');
                }
                is_span_cut(directive, text, end + 1)
            }
        },
        None => true,
    }
}

/// Whether the parser slices a list of directives between characters only.
pub fn is_sliced_between_chars(list: &str) -> (sliced: bool)
    ensures
        sliced == sliced_between_chars(list@),
    decreases list@.len(),
{
    let len: usize = list.unicode_len();
    let mut start: usize = len;
    proof {
        assert(list@.take(len as int) =~= list@);
        lemma_last_directive(list@);
    }
    while start > 0 && list.get_char(start - 1) != ','
        invariant
            start <= len,
            len == list@.len(),
            last_directive(list@) == last_directive(list@.take(start as int)),
        decreases start,
    {
        assert(list@.take(start as int).drop_last() =~= list@.take(start - 1));
        start -= 1;
    }
    assert(last_directive(list@) == start);
    let directive = list.substring_char(start, len);
    assert(directive@ =~= list@.skip(start as int));
    assert forall|i: int| 0 <= i < directive@.len() implies directive@[i] != ',' by {
        assert(directive@[i] == list@[start + i]);
    }
    if start == 0 {
        assert(directive@ =~= list@);
        return is_directive_cut(directive);
    }
    let before = list.substring_char(0, start - 1);
    assert(before@ =~= list@.take(start - 1));
    if !is_sliced_between_chars(before) {
        return false;
    }
    if check_filter(before).is_ok() {
        is_directive_cut(directive)
    } else {
        true
    }
}

} // verus!
