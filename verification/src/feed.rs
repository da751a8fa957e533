//! Feed items: the text handed to the classifier and the requests made to
//! the feed source.

use vstd::prelude::*;
use vstd::string::StringExecFns;
use crate::decimal::{
    decimal, decimal_digits, is_digit, lemma_decimal_round_trip, lemma_digits_of, parse_decimal,
    parse_i64, parse_window, push_signed_decimal,
};
use crate::text::{
    find_char, first_index, is_space, lemma_first_index, lemma_first_index_window,
    skip_space_backward, skip_space_forward, to_chars, trim,
};

verus! {

/// One unread feed entry.
#[derive(Clone, Debug)]
pub struct FeverItem {
    pub id: i64,
    pub title: String,
    pub url: Option<String>,
    pub author: Option<String>,
    pub html: Option<String>,
    pub content: Option<String>,
    pub created_on_time: Option<i64>,
}

/// The answer of the feed source to a request for items.
#[derive(Clone, Debug)]
pub struct FeverItemsResp {
    pub items: Vec<FeverItem>,
}

/// The pattern of one markup tag: `<`, one character or more other than
/// `>`, and `>`.
pub open spec fn tag_pattern() -> Seq<char> {
    seq!['<', '[', '^', '>', ']', '+', '>']
}

/// `html` with every markup tag replaced by one space, read from left to
/// right. A tag begins at a `<` and ends at the first `>` after it, with one
/// character or more between the two. A `<` that begins no tag stays as it
/// is, and the reading goes on with the character after it.
pub open spec fn markup_stripped(html: Seq<char>) -> Seq<char>
    decreases html.len(),
{
    if html.len() == 0 {
        Seq::empty()
    } else {
        let between = first_index(html.drop_first(), '>');
        if html[0] == '<' && 1 <= between < html.len() - 1 {
            seq![' '] + markup_stripped(html.subrange(between + 2, html.len() as int))
        } else {
            seq![html[0]] + markup_stripped(html.drop_first())
        }
    }
}

/// Compiles `pattern` with `regex::Regex::new` and, where that succeeds,
/// calls `Regex::replace_all` on `haystack` with `replacement`. The contract
/// is claimed for the tag pattern and a replacement of one space alone. For
/// these it states what the documentation of the pattern engine gives: the
/// matches are taken from left to right and do not overlap, a character
/// class that excludes `>` takes any other character, and a replacement
/// without `$` is put in as it is. It does not claim that the pattern is
/// accepted.
#[verifier::external_body]
fn replace_all(pattern: &str, haystack: &str, replacement: &str) -> (out: Option<String>)
    requires
        pattern@ == tag_pattern(),
        replacement@ == seq![' '],
    ensures
        out matches Some(text) ==> text@ == markup_stripped(haystack@),
{
    match regex::Regex::new(pattern) {
        Ok(re) => Some(re.replace_all(haystack, replacement).into_owned()),
        Err(_) => None,
    }
}

/// Replaces every markup tag of `html` by one space, without the pattern
/// engine: see [`markup_stripped`].
pub fn replace_tags(html: &str) -> (text: String)
    ensures
        text@ == markup_stripped(html@),
{
    let chars = to_chars(html);
    let n: usize = chars.len();
    let mut text: String = String::new();
    let mut pos: usize = 0;
    proof {
        assert(chars@.subrange(0, n as int) == chars@);
        assert(Seq::<char>::empty() + markup_stripped(chars@) == markup_stripped(chars@));
    }
    while pos < n
        invariant
            pos <= n,
            n == chars@.len(),
            markup_stripped(chars@) == text@ + markup_stripped(chars@.subrange(pos as int, n as int)),
        decreases n - pos,
    {
        let ghost rest = chars@.subrange(pos as int, n as int);
        let ghost before = text@;
        proof {
            assert(rest[0] == chars@[pos as int]);
            assert(rest.drop_first() == chars@.subrange(pos + 1, n as int));
        }
        let close: usize = if chars[pos] == '<' {
            find_char(&chars, pos + 1, n, '>')
        } else {
            n
        };
        if chars[pos] == '<' && close < n && close - pos >= 2 {
            text.push(' ');
            proof {
                let tail = chars@.subrange(close + 1, n as int);
                assert(rest.subrange(close - pos + 1, rest.len() as int) == tail);
                assert(markup_stripped(rest) == seq![' '] + markup_stripped(tail));
                assert(before + (seq![' '] + markup_stripped(tail)) == before.push(' ')
                    + markup_stripped(tail));
            }
            pos = close + 1;
        } else {
            text.push(chars[pos]);
            proof {
                let tail = chars@.subrange(pos + 1, n as int);
                assert(markup_stripped(rest) == seq![rest[0]] + markup_stripped(tail));
                assert(before + (seq![rest[0]] + markup_stripped(tail)) == before.push(rest[0])
                    + markup_stripped(tail));
            }
            pos = pos + 1;
        }
    }
    proof {
        assert(markup_stripped(chars@.subrange(n as int, n as int)) == Seq::<char>::empty());
        assert(text@ + Seq::<char>::empty() == text@);
    }
    text
}

/// Whether a markup tag begins at place `i` of `s`: a `<` stands there, and
/// the first `>` after it has one character or more before it.
pub open spec fn begins_tag(s: Seq<char>, i: int) -> bool {
    &&& 0 <= i < s.len()
    &&& s[i] == '<'
    &&& 1 <= first_index(s.subrange(i + 1, s.len() as int), '>') < s.len() - i - 1
}

/// A text without `>` holds no tag and is left as it is.
proof fn lemma_stripped_without_close(html: Seq<char>)
    requires
        forall|j: int| 0 <= j < html.len() ==> (#[trigger] html[j]) != '>',
    ensures
        markup_stripped(html) == html,
    decreases html.len(),
{
    if html.len() > 0 {
        let rest = html.drop_first();
        assert forall|j: int| 0 <= j < rest.len() implies (#[trigger] rest[j]) != '>' by {
            assert(rest[j] == html[j + 1]);
        }
        assert(rest.subrange(0, rest.len() as int) == rest);
        lemma_first_index_window(rest, '>', 0, rest.len() as int, rest.len() as int);
        lemma_stripped_without_close(rest);
        assert(seq![html[0]] + rest == html);
    }
}

/// Whether a tag begins at a place does not depend on what stands before
/// that place.
proof fn lemma_begins_tag_after(first: char, rest: Seq<char>, i: int)
    requires
        0 <= i,
    ensures
        begins_tag(seq![first] + rest, i + 1) == begins_tag(rest, i),
{
    let s = seq![first] + rest;
    if 0 <= i < rest.len() {
        assert(s[i + 1] == rest[i]);
        assert(s.subrange(i + 2, s.len() as int) == rest.subrange(i + 1, rest.len() as int));
    }
}

/// No tag remains. In a text whose tags were replaced no tag begins at any
/// place, so replacing them once more changes nothing that a tag could be
/// made of.
pub proof fn lemma_no_tag_remains(html: Seq<char>)
    ensures
        forall|i: int| !begins_tag(markup_stripped(html), i),
    decreases html.len(),
{
    let out = markup_stripped(html);
    if html.len() > 0 {
        let rest = html.drop_first();
        let between = first_index(rest, '>');
        lemma_first_index(rest, '>');
        if html[0] == '<' && 1 <= between < html.len() - 1 {
            let tail = html.subrange(between + 2, html.len() as int);
            let later = markup_stripped(tail);
            lemma_no_tag_remains(tail);
            assert(out == seq![' '] + later);
            assert forall|i: int| !begins_tag(out, i) by {
                if i >= 1 {
                    lemma_begins_tag_after(' ', later, i - 1);
                } else if i == 0 {
                    assert(out[0] == ' ');
                }
            }
        } else {
            let later = markup_stripped(rest);
            lemma_no_tag_remains(rest);
            assert(out == seq![html[0]] + later);
            assert(out.subrange(1, out.len() as int) == later);
            assert forall|i: int| !begins_tag(out, i) by {
                if i >= 1 {
                    lemma_begins_tag_after(html[0], later, i - 1);
                } else if i == 0 && html[0] == '<' {
                    assert(out[0] == '<');
                    if between < rest.len() {
                        // The `<` is followed at once by `>`.
                        assert(between == 0);
                        assert(rest[0] == '>');
                        assert(later == seq!['>'] + markup_stripped(rest.drop_first()));
                        assert(later[0] == '>');
                        assert(first_index(later, '>') == 0);
                    } else {
                        // No `>` follows the `<`.
                        lemma_stripped_without_close(rest);
                        assert(later == rest);
                        assert(first_index(later, '>') == later.len());
                    }
                }
            }
        }
    }
}

/// Replaces every markup tag of `html` by one space: see
/// [`markup_stripped`]. The pattern engine does the work; were it to reject
/// the tag pattern, the same text is worked out here.
pub fn strip_html(html: &str) -> (text: String)
    ensures
        text@ == markup_stripped(html@),
{
    proof {
        reveal_strlit("<[^>]+>");
        reveal_strlit(" ");
        assert("<[^>]+>"@ == tag_pattern());
        assert(" "@ == seq![' ']);
    }
    match replace_all("<[^>]+>", html, " ") {
        Some(text) => text,
        None => replace_tags(html),
    }
}

/// A part of the review text: nothing where the field is absent, else the
/// lead and the field.
pub open spec fn text_part(lead: Seq<char>, field: Option<Seq<char>>) -> Seq<char> {
    match field {
        Some(value) => lead + value,
        None => Seq::empty(),
    }
}

/// The review text: the title, then on a line each, where present, the
/// author, the plain body, and the body with markup stripped.
pub open spec fn review_text(
    title: Seq<char>,
    author: Option<Seq<char>>,
    content: Option<Seq<char>>,
    stripped_html: Option<Seq<char>>,
) -> Seq<char> {
    title + text_part(seq!['\n'], author) + text_part(seq!['\n'], content) + text_part(
        seq!['\n'],
        stripped_html,
    )
}

/// The characters of an optional string.
pub open spec fn opt_view(field: Option<String>) -> Option<Seq<char>> {
    match field {
        Some(value) => Some(value@),
        None => None,
    }
}

/// The characters of an optional string slice.
pub open spec fn opt_str_view(field: Option<&str>) -> Option<Seq<char>> {
    match field {
        Some(value) => Some(value@),
        None => None,
    }
}

/// Puts the review text together from its parts, the markup body already
/// stripped.
pub fn compose_item_text(
    title: &str,
    author: Option<&str>,
    content: Option<&str>,
    stripped_html: Option<&str>,
) -> (text: String)
    ensures
        text@ == review_text(
            title@,
            opt_str_view(author),
            opt_str_view(content),
            opt_str_view(stripped_html),
        ),
{
    proof {
        reveal_strlit("\n");
        assert("\n"@ == seq!['\n']);
    }
    let mut text: String = String::from_str(title);
    match author {
        Some(a) => {
            text.append("\n");
            text.append(a);
            assert(text@ == title@ + text_part(seq!['\n'], Some(a@)));
        },
        None => {
            assert(text@ == title@ + Seq::<char>::empty());
        },
    }
    let ghost with_author = text@;
    match content {
        Some(c) => {
            text.append("\n");
            text.append(c);
            assert(text@ == with_author + text_part(seq!['\n'], Some(c@)));
        },
        None => {
            assert(text@ == with_author + Seq::<char>::empty());
        },
    }
    let ghost with_content = text@;
    match stripped_html {
        Some(h) => {
            text.append("\n");
            text.append(h);
            assert(text@ == with_content + text_part(seq!['\n'], Some(h@)));
        },
        None => {
            assert(text@ == with_content + Seq::<char>::empty());
        },
    }
    text
}

/// The review text of an item as a mathematical value.
pub open spec fn item_review_text(item: FeverItem) -> Seq<char> {
    review_text(
        item.title@,
        opt_view(item.author),
        opt_view(item.content),
        match item.html {
            Some(h) => Some(markup_stripped(h@)),
            None => None,
        },
    )
}

/// The text of `item` that is handed to the classifier.
pub fn item_text(item: &FeverItem) -> (text: String)
    ensures
        text@ == item_review_text(*item),
{
    let author: Option<&str> = match &item.author {
        Some(a) => Some(a.as_str()),
        None => None,
    };
    let content: Option<&str> = match &item.content {
        Some(c) => Some(c.as_str()),
        None => None,
    };
    match &item.html {
        Some(h) => {
            let stripped = strip_html(h.as_str());
            compose_item_text(item.title.as_str(), author, content, Some(stripped.as_str()))
        },
        None => compose_item_text(item.title.as_str(), author, content, None),
    }
}

/// The most identifiers asked for in one request for items.
pub const FETCH_CHUNK: usize = 50;

/// The query of a request to the feed API: `api`, then `&` and the extras
/// where there are any.
pub open spec fn fever_query_of(extras: Seq<char>) -> Seq<char> {
    if extras.len() == 0 {
        "api"@
    } else {
        "api&"@ + extras
    }
}

/// The query of a request to the feed API: see [`fever_query_of`].
pub fn fever_query(extras: &str) -> (query: String)
    ensures
        query@ == fever_query_of(extras@),
{
    if extras.is_empty() {
        String::from_str("api")
    } else {
        let mut query = String::from_str("api&");
        query.append(extras);
        query
    }
}

/// The identifiers in decimal, with a comma between two of them.
pub open spec fn joined_ids(ids: Seq<i64>) -> Seq<char>
    decreases ids.len(),
{
    if ids.len() == 0 {
        Seq::empty()
    } else if ids.len() == 1 {
        decimal(ids[0] as int)
    } else {
        joined_ids(ids.drop_last()) + seq![','] + decimal(ids.last() as int)
    }
}

/// The extras of a request for the items `ids`.
pub open spec fn items_extras_of(ids: Seq<i64>) -> Seq<char> {
    "items&with_ids="@ + joined_ids(ids)
}

/// The extras of a request for the items `ids[from..to]`.
pub fn items_extras(ids: &Vec<i64>, from: usize, to: usize) -> (extras: String)
    requires
        from <= to <= ids@.len(),
    ensures
        extras@ == items_extras_of(ids@.subrange(from as int, to as int)),
{
    let mut extras = String::from_str("items&with_ids=");
    let ghost lead = extras@;
    let mut i: usize = from;
    proof {
        assert(ids@.subrange(from as int, from as int) == Seq::<i64>::empty());
        assert(lead + Seq::<char>::empty() == lead);
    }
    while i < to
        invariant
            from <= i <= to <= ids@.len(),
            lead == "items&with_ids="@,
            extras@ == lead + joined_ids(ids@.subrange(from as int, i as int)),
        decreases to - i,
    {
        let ghost before = ids@.subrange(from as int, i as int);
        let ghost after = ids@.subrange(from as int, i + 1);
        let ghost text = extras@;
        proof {
            assert(after.drop_last() == before);
            assert(after.last() == ids@[i as int]);
        }
        if i > from {
            extras.push(',');
        }
        push_signed_decimal(&mut extras, ids[i]);
        proof {
            let number = decimal(ids@[i as int] as int);
            if i > from {
                assert(extras@ == text.push(',') + number);
                assert(text.push(',') + number == lead + (joined_ids(before) + seq![','] + number));
            } else {
                assert(after.len() == 1);
                assert(after[0] == ids@[i as int]);
                assert(joined_ids(before) == Seq::<char>::empty());
                assert(text + number == lead + number);
            }
        }
        i = i + 1;
    }
    extras
}

/// The extras of the request that marks the item `item_id` read.
pub open spec fn mark_read_extras_of(item_id: i64) -> Seq<char> {
    "mark=item&as=read&id="@ + decimal(item_id as int)
}

/// The extras of the request that marks the item `item_id` read.
pub fn mark_read_extras(item_id: i64) -> (extras: String)
    ensures
        extras@ == mark_read_extras_of(item_id),
{
    let mut extras = String::from_str("mark=item&as=read&id=");
    push_signed_decimal(&mut extras, item_id);
    extras
}

/// The tag by which the labeller knows the label `label`.
pub open spec fn label_tag_of(label: Seq<char>) -> Seq<char> {
    "user/-/label/"@ + label
}

/// The tag by which the labeller knows the label `label`.
pub fn label_tag(label: &str) -> (tag: String)
    ensures
        tag@ == label_tag_of(label@),
{
    let mut tag = String::from_str("user/-/label/");
    tag.append(label);
    tag
}

/// The identifiers written in `s`, a list with a comma between two
/// entries: each entry is trimmed, and one that writes no 64-bit integer is
/// passed over.
pub open spec fn id_list(s: Seq<char>) -> Seq<i64>
    decreases s.len(),
{
    let k = first_index(s, ',');
    if k < 0 || k >= s.len() {
        entry_ids(s)
    } else {
        entry_ids(s.subrange(0, k)) + id_list(s.subrange(k + 1, s.len() as int))
    }
}

/// The identifier written in one entry of a list, or nothing.
pub open spec fn entry_ids(entry: Seq<char>) -> Seq<i64> {
    match parse_decimal(trim(entry)) {
        Some(id) => seq![id],
        None => Seq::empty(),
    }
}

/// The identifiers written in the list `s`: see [`id_list`].
pub fn parse_id_list(s: &str) -> (ids: Vec<i64>)
    ensures
        ids@ == id_list(s@),
{
    let chars = to_chars(s);
    let n: usize = chars.len();
    let mut ids: Vec<i64> = Vec::new();
    let mut pos: usize = 0;
    let mut open: bool = true;
    proof {
        assert(chars@.subrange(0, n as int) == chars@);
        assert(Seq::<i64>::empty() + id_list(chars@) == id_list(chars@));
    }
    while open
        invariant
            pos <= n,
            n == chars@.len(),
            chars@ == s@,
            open ==> id_list(s@) == ids@ + id_list(chars@.subrange(pos as int, n as int)),
            !open ==> id_list(s@) == ids@,
        decreases n - pos + (if open { 1int } else { 0int }),
    {
        let ghost rest = chars@.subrange(pos as int, n as int);
        let ghost before = ids@;
        let k = find_char(&chars, pos, n, ',');
        let a = skip_space_forward(&chars, pos, k);
        let b = skip_space_backward(&chars, a, k);
        let parsed = parse_window(&chars, a, b);
        proof {
            assert(rest.subrange(0, k - pos) == chars@.subrange(pos as int, k as int));
            assert(chars@.subrange(a as int, b as int) == trim(
                chars@.subrange(pos as int, k as int),
            ));
        }
        match parsed {
            Some(id) => {
                ids.push(id);
                assert(ids@ == before + entry_ids(chars@.subrange(pos as int, k as int)));
            },
            None => {
                assert(ids@ == before + entry_ids(chars@.subrange(pos as int, k as int)));
            },
        }
        if k == n {
            proof {
                assert(rest.subrange(0, k - pos) == rest);
            }
            open = false;
        } else {
            proof {
                let tail = rest.subrange(k - pos + 1, rest.len() as int);
                assert(tail == chars@.subrange(k + 1, n as int));
                let head = entry_ids(chars@.subrange(pos as int, k as int));
                assert(before + (head + id_list(tail)) == (before + head) + id_list(tail));
            }
            pos = k + 1;
        }
    }
    ids
}

/// A number in decimal is not empty and holds no comma and no white space.
proof fn lemma_decimal_is_plain(n: i64)
    ensures
        decimal(n as int).len() > 0,
        forall|i: int|
            0 <= i < decimal(n as int).len() ==> (#[trigger] decimal(n as int)[i]) != ','
                && !is_space(decimal(n as int)[i]),
{
    let s = decimal(n as int);
    if n < 0 {
        let digits = decimal_digits((-(n as int)) as nat);
        lemma_digits_of((-(n as int)) as nat);
        assert forall|i: int| 0 <= i < s.len() implies (#[trigger] s[i]) != ',' && !is_space(
            s[i],
        ) by {
            if i > 0 {
                assert(s[i] == digits[i - 1]);
                assert(is_digit(digits[i - 1]));
            } else {
                assert(s[0] == '-');
            }
        }
    } else {
        lemma_digits_of(n as nat);
        assert forall|i: int| 0 <= i < s.len() implies (#[trigger] s[i]) != ',' && !is_space(
            s[i],
        ) by {
            assert(is_digit(s[i]));
        }
    }
}

/// An entry that writes a number in decimal reads as that number.
proof fn lemma_entry_of_decimal(n: i64)
    ensures
        entry_ids(decimal(n as int)) == seq![n],
{
    let s = decimal(n as int);
    lemma_decimal_is_plain(n);
    assert(!is_space(s[0]));
    assert(!is_space(s.last()));
    assert(trim(s) == s);
    lemma_decimal_round_trip(n);
}

/// A list begins with its first entry: what stands before the first comma
/// is read as an entry, the rest as a list.
proof fn lemma_id_list_front(entry: Seq<char>, rest: Seq<char>)
    requires
        forall|i: int| 0 <= i < entry.len() ==> (#[trigger] entry[i]) != ',',
    ensures
        id_list(entry) == entry_ids(entry),
        id_list(entry + seq![','] + rest) == entry_ids(entry) + id_list(rest),
{
    assert(entry.subrange(0, entry.len() as int) == entry);
    lemma_first_index_window(entry, ',', 0, entry.len() as int, entry.len() as int);
    let s = entry + seq![','] + rest;
    let k = entry.len() as int;
    assert(s.subrange(0, s.len() as int) == s);
    assert(s[k] == ',');
    assert forall|i: int| 0 <= i < k implies (#[trigger] s[i]) != ',' by {
        assert(s[i] == entry[i]);
    }
    lemma_first_index_window(s, ',', 0, k, s.len() as int);
    assert(s.subrange(0, k) == entry);
    assert(s.subrange(k + 1, s.len() as int) == rest);
}

/// A list of two identifiers or more is written as its first identifier, a
/// comma, and the others.
proof fn lemma_joined_front(ids: Seq<i64>)
    requires
        ids.len() >= 2,
    ensures
        joined_ids(ids) == decimal(ids[0] as int) + seq![','] + joined_ids(ids.drop_first()),
    decreases ids.len(),
{
    let first = decimal(ids[0] as int);
    let last = decimal(ids.last() as int);
    let comma = seq![','];
    let without_last = ids.drop_last();
    let without_first = ids.drop_first();
    assert(joined_ids(ids) == joined_ids(without_last) + comma + last);
    if ids.len() == 2 {
        assert(without_last.len() == 1 && without_last[0] == ids[0]);
        assert(without_first.len() == 1 && without_first[0] == ids.last());
        assert(joined_ids(without_last) == first);
        assert(joined_ids(without_first) == last);
    } else {
        lemma_joined_front(without_last);
        let middle = joined_ids(without_last.drop_first());
        assert(without_last[0] == ids[0]);
        assert(joined_ids(without_last) == first + comma + middle);
        assert(without_first.len() >= 2);
        assert(without_first.drop_last() == without_last.drop_first());
        assert(without_first.last() == ids.last());
        assert(joined_ids(without_first) == joined_ids(without_first.drop_last()) + comma
            + decimal(without_first.last() as int));
        assert(joined_ids(without_first) == middle + comma + last);
        assert((first + comma + middle) + comma + last == first + comma + (middle + comma + last));
    }
}

/// What is written for a request is read back as it was: the identifiers
/// joined by commas are the list of those identifiers.
pub proof fn lemma_id_list_round_trip(ids: Seq<i64>)
    ensures
        id_list(joined_ids(ids)) == ids,
    decreases ids.len(),
{
    if ids.len() == 0 {
        let nothing = Seq::<char>::empty();
        lemma_id_list_front(nothing, nothing);
        assert(trim(nothing) == nothing);
        assert(id_list(nothing) == Seq::<i64>::empty());
        assert(ids == Seq::<i64>::empty());
    } else if ids.len() == 1 {
        lemma_decimal_is_plain(ids[0]);
        lemma_id_list_front(decimal(ids[0] as int), Seq::empty());
        lemma_entry_of_decimal(ids[0]);
        assert(ids == seq![ids[0]]);
    } else {
        lemma_joined_front(ids);
        lemma_decimal_is_plain(ids[0]);
        lemma_id_list_front(decimal(ids[0] as int), joined_ids(ids.drop_first()));
        lemma_entry_of_decimal(ids[0]);
        lemma_id_list_round_trip(ids.drop_first());
        assert(seq![ids[0]] + ids.drop_first() == ids);
    }
}

/// The `i`-th of the pieces of `len` in steps of `size`: where it begins
/// and ends.
pub open spec fn chunk_bounds(len: int, size: int, i: int) -> (int, int) {
    (i * size, if (i + 1) * size < len { (i + 1) * size } else { len })
}

/// Whether `chunks` are `ids` cut into pieces of `size`, in order: every
/// piece but the last of that size, the last of that size or less, none
/// empty.
pub open spec fn is_chunking(ids: Seq<i64>, size: int, chunks: Seq<Vec<i64>>) -> bool {
    &&& chunks.len() * size >= ids.len() > (chunks.len() - 1) * size
    &&& forall|i: int|
        0 <= i < chunks.len() ==> (#[trigger] chunks[i])@ == ids.subrange(
            chunk_bounds(ids.len() as int, size, i).0,
            chunk_bounds(ids.len() as int, size, i).1,
        )
}

/// Cuts `ids` into pieces of `size`, in order: see [`is_chunking`].
pub fn chunk_ids(ids: &Vec<i64>, size: usize) -> (chunks: Vec<Vec<i64>>)
    requires
        size > 0,
    ensures
        is_chunking(ids@, size as int, chunks@),
{
    let n: usize = ids.len();
    let mut chunks: Vec<Vec<i64>> = Vec::new();
    let mut start: usize = 0;
    proof {
        assert(0 * size == 0 && (0 - 1) * size == -size) by (nonlinear_arith);
    }
    while start < n
        invariant
            n == ids@.len(),
            size > 0,
            start <= n,
            start < n ==> start == chunks@.len() * size,
            start == n ==> chunks@.len() * size >= n > (chunks@.len() - 1) * size,
            forall|i: int|
                0 <= i < chunks@.len() ==> (#[trigger] chunks@[i])@ == ids@.subrange(
                    chunk_bounds(n as int, size as int, i).0,
                    chunk_bounds(n as int, size as int, i).1,
                ),
        decreases n - start,
    {
        let end: usize = if n - start > size {
            start + size
        } else {
            n
        };
        let mut piece: Vec<i64> = Vec::new();
        let mut j: usize = start;
        while j < end
            invariant
                start <= j <= end <= n,
                n == ids@.len(),
                piece@ == ids@.subrange(start as int, j as int),
            decreases end - j,
        {
            piece.push(ids[j]);
            proof {
                assert(ids@.subrange(start as int, j + 1) == ids@.subrange(
                    start as int,
                    j as int,
                ).push(ids@[j as int]));
            }
            j = j + 1;
        }
        let ghost count = chunks@.len() as int;
        let ghost previous = chunks@;
        proof {
            assert(start == count * size);
            assert((count + 1) * size == count * size + size) by (nonlinear_arith);
            assert(chunk_bounds(n as int, size as int, count) == (start as int, end as int));
        }
        chunks.push(piece);
        proof {
            assert forall|i: int| 0 <= i < chunks@.len() implies (#[trigger] chunks@[i])@
                == ids@.subrange(
                chunk_bounds(n as int, size as int, i).0,
                chunk_bounds(n as int, size as int, i).1,
            ) by {
                if i < count {
                    assert(chunks@[i] == previous[i]);
                }
            }
            assert(chunks@.len() == count + 1);
            assert((count + 1 - 1) * size == count * size);
        }
        start = end;
    }
    chunks
}

/// An integer as the feed source may write it: a number, or a number in a
/// string.
#[derive(Debug)]
pub enum RawInteger {
    Signed { signed: i64 },
    Unsigned { unsigned: u64 },
    Text { text: String },
}

/// The 64-bit signed integer that stands for `value`: the same number where
/// it fits, else the number that is 2^64 less.
pub open spec fn wrapped(value: u64) -> i64 {
    if value <= i64::MAX {
        value as i64
    } else {
        (value - 0x1_0000_0000_0000_0000) as i64
    }
}

/// The integer that `raw` stands for, if any.
pub open spec fn raw_integer_value(raw: RawInteger) -> Option<i64> {
    match raw {
        RawInteger::Signed { signed } => Some(signed),
        RawInteger::Unsigned { unsigned } => Some(wrapped(unsigned)),
        RawInteger::Text { text } => parse_decimal(text@),
    }
}

/// Reads an integer that is written as a number or inside a string. A
/// signed number is taken as it is, an unsigned one above the signed range
/// wraps around, and a string has to write a 64-bit signed integer in
/// decimal.
pub fn de_i64_from_str_or_int(raw: &RawInteger) -> (value: Option<i64>)
    ensures
        value == raw_integer_value(*raw),
{
    match raw {
        RawInteger::Signed { signed } => Some(*signed),
        RawInteger::Unsigned { unsigned } => {
            let v: u64 = *unsigned;
            if v <= 0x7fff_ffff_ffff_ffff {
                Some(v as i64)
            } else {
                Some(((v - 0x8000_0000_0000_0000) as i64) + i64::MIN)
            }
        },
        RawInteger::Text { text } => parse_i64(text.as_str()),
    }
}

/// Reads an integer that may be absent: nothing where it is absent, else as
/// [`de_i64_from_str_or_int`] reads it. The outer `None` says that what is
/// there is no integer.
pub fn de_opt_i64_from_str_or_int(raw: Option<&RawInteger>) -> (value: Option<Option<i64>>)
    ensures
        value == (match raw {
            None => Some(None::<i64>),
            Some(present) => match raw_integer_value(*present) {
                Some(number) => Some(Some(number)),
                None => None,
            },
        }),
{
    match raw {
        None => Some(None),
        Some(present) => match de_i64_from_str_or_int(present) {
            Some(number) => Some(Some(number)),
            None => None,
        },
    }
}

} // verus!
