//! Which templates a template takes in.
//!
//! A template takes another in with a tag that opens with `{{`, goes on with
//! any of `~`, `#` and blanks, and then holds `>` and the other's name. A tag
//! that holds `*` in place of `>` defines a partial on the spot. The renderer
//! follows such tags for as long as they lead on, so a template that is
//! reached again from itself is rendered without end. The functions here read
//! the tags off a source, erring on the side of seeing one too many, and say
//! how deep the tags of a template lead.
use vstd::prelude::*;

verus! {

/// Whether `c` is a space, a tab or a line break.
pub open spec fn is_blank(c: char) -> bool {
    c == ' ' || c == '\t' || c == '\n' || c == '\r'
}

/// Whether `c` may stand between the `{{` of a tag and its mark.
pub open spec fn is_tag_prefix(c: char) -> bool {
    c == '~' || c == '#' || is_blank(c)
}

/// Whether `c` may stand in the plain name of a partial: an ASCII letter or
/// digit, one of `-`, `_`, `@`, `/` and `.`, or any character beyond ASCII.
pub open spec fn is_name_char(c: char) -> bool {
    ('a' <= c && c <= 'z') || ('A' <= c && c <= 'Z') || ('0' <= c && c <= '9') || c == '-' || c
        == '_' || c == '@' || c == '/' || c == '.' || c as u32 >= 0x80
}

/// The place of the first character at or after `from` that cannot stand
/// between `{{` and a mark; the length of the text where there is none.
pub open spec fn after_tag_prefix(text: Seq<char>, from: int) -> int
    decreases text.len() - from,
{
    if 0 <= from < text.len() && is_tag_prefix(text[from]) {
        after_tag_prefix(text, from + 1)
    } else {
        from
    }
}

/// The place of the first character at or after `from` that is not blank;
/// the length of the text where there is none.
pub open spec fn after_blanks(text: Seq<char>, from: int) -> int
    decreases text.len() - from,
{
    if 0 <= from < text.len() && is_blank(text[from]) {
        after_blanks(text, from + 1)
    } else {
        from
    }
}

/// Whether a tag with the mark `mark` opens at `at`.
pub open spec fn tag_at(text: Seq<char>, at: int, mark: char) -> bool {
    &&& 0 <= at
    &&& at + 1 < text.len()
    &&& text[at] == '{'
    &&& text[at + 1] == '{'
    &&& after_tag_prefix(text, at + 2) < text.len()
    &&& text[after_tag_prefix(text, at + 2)] == mark
}

/// Whether the text holds a tag with the mark `mark`.
pub open spec fn has_tag(text: Seq<char>, mark: char) -> bool {
    exists|at: int| tag_at(text, at, mark)
}

/// Where the name begins in the tag that opens at `at`.
pub open spec fn name_place(text: Seq<char>, at: int) -> int {
    after_blanks(text, after_tag_prefix(text, at + 2) + 1)
}

/// Whether the tag that opens at `at` takes a template in and names it
/// plainly: the name begins with a character of a plain name.
pub open spec fn plain_at(text: Seq<char>, at: int) -> bool {
    tag_at(text, at, '>') ==> name_place(text, at) < text.len() && is_name_char(
        text[name_place(text, at)],
    )
}

/// Whether every tag of the text that takes a template in names it plainly.
pub open spec fn plainly_named(text: Seq<char>) -> bool {
    forall|at: int| 0 <= at < text.len() ==> #[trigger] plain_at(text, at)
}

/// Whether the tag that opens at `at` takes in the template `name`: `name`
/// stands where the tag's name begins, and no character of a name follows it.
pub open spec fn names_at(text: Seq<char>, at: int, name: Seq<char>) -> bool {
    let start = name_place(text, at);
    &&& tag_at(text, at, '>')
    &&& start + name.len() <= text.len()
    &&& text.subrange(start, start + name.len()) == name
    &&& (start + name.len() == text.len() || !is_name_char(text[start + name.len()]))
}

/// Whether the text may take in the template `name`.
pub open spec fn may_include(text: Seq<char>, name: Seq<char>) -> bool {
    exists|at: int| names_at(text, at, name)
}

/// Whether the tags of the text can be followed by their names: each tag
/// that takes a template in names it plainly, and none defines a partial on
/// the spot, whose name would stand for something that is not registered.
pub open spec fn readable(text: Seq<char>) -> bool {
    plainly_named(text) && !has_tag(text, '*')
}

/// Whether the tags of the template `name` lead no deeper than `depth`
/// templates, `name` itself counted: its source is readable, and each
/// registered template that it may take in ends one level earlier. A name
/// that is not registered ends at once, for the renderer only reports it.
pub open spec fn ends_within(
    templates: Map<Seq<char>, Seq<char>>,
    name: Seq<char>,
    depth: nat,
) -> bool
    decreases depth,
{
    if !templates.dom().contains(name) {
        true
    } else if depth == 0 {
        false
    } else {
        &&& readable(templates[name])
        &&& forall|part: Seq<char>|
            templates.dom().contains(part) && #[trigger] may_include(templates[name], part)
                ==> ends_within(templates, part, (depth - 1) as nat)
    }
}

/// What ends within a depth ends within any greater depth.
pub proof fn lemma_ends_within_more(
    templates: Map<Seq<char>, Seq<char>>,
    name: Seq<char>,
    depth: nat,
    more: nat,
)
    requires
        ends_within(templates, name, depth),
        depth <= more,
    ensures
        ends_within(templates, name, more),
    decreases depth,
{
    if templates.dom().contains(name) {
        assert forall|part: Seq<char>|
            templates.dom().contains(part) && #[trigger] may_include(
                templates[name],
                part,
            ) implies ends_within(templates, part, (more - 1) as nat) by {
            lemma_ends_within_more(templates, part, (depth - 1) as nat, (more - 1) as nat);
        }
    }
}

/// Readable templates that can be put in ranks, each above all that it may
/// take in, end: a template of rank `r` ends within `r + 1`.
pub proof fn lemma_ranked_templates_end(
    templates: Map<Seq<char>, Seq<char>>,
    rank: spec_fn(Seq<char>) -> nat,
    name: Seq<char>,
)
    requires
        forall|any: Seq<char>| #[trigger]
            templates.dom().contains(any) ==> readable(templates[any]),
        forall|from: Seq<char>, to: Seq<char>|
            templates.dom().contains(from) && templates.dom().contains(to)
                && #[trigger] may_include(templates[from], to) ==> rank(to) < rank(from),
    ensures
        ends_within(templates, name, rank(name) + 1),
    decreases rank(name),
{
    if templates.dom().contains(name) {
        assert forall|part: Seq<char>|
            templates.dom().contains(part) && #[trigger] may_include(
                templates[name],
                part,
            ) implies ends_within(templates, part, rank(name)) by {
            lemma_ranked_templates_end(templates, rank, part);
            lemma_ends_within_more(templates, part, rank(part) + 1, rank(name));
        }
    }
}

/// The characters of `text`, one by one.
pub fn chars_of(text: &str) -> (chars: Vec<char>)
    ensures
        chars@ == text@,
{
    let mut chars: Vec<char> = Vec::new();
    for c in position: text.chars()
        invariant
            position.seq() == text@,
            chars@ == text@.take(position.index() as int),
    {
        proof {
            assert(text@.take(position.index() + 1) == text@.take(position.index() as int).push(
                text@[position.index() as int],
            ));
        }
        chars.push(c);
    }
    assert(text@.take(text@.len() as int) == text@);
    chars
}

fn blank(c: char) -> (yes: bool)
    ensures
        yes == is_blank(c),
{
    c == ' ' || c == '\t' || c == '\n' || c == '\r'
}

fn name_char(c: char) -> (yes: bool)
    ensures
        yes == is_name_char(c),
{
    ('a' <= c && c <= 'z') || ('A' <= c && c <= 'Z') || ('0' <= c && c <= '9') || c == '-' || c
        == '_' || c == '@' || c == '/' || c == '.' || c as u32 >= 0x80
}

fn skip_tag_prefix(text: &Vec<char>, from: usize) -> (place: usize)
    requires
        from <= text.len(),
    ensures
        place == after_tag_prefix(text@, from as int),
        from <= place <= text.len(),
{
    let mut place: usize = from;
    while place < text.len() && (text[place] == '~' || text[place] == '#' || blank(text[place]))
        invariant
            from <= place <= text.len(),
            after_tag_prefix(text@, place as int) == after_tag_prefix(text@, from as int),
        decreases text.len() - place,
    {
        place = place + 1;
    }
    place
}

fn skip_blanks(text: &Vec<char>, from: usize) -> (place: usize)
    requires
        from <= text.len(),
    ensures
        place == after_blanks(text@, from as int),
        from <= place <= text.len(),
{
    let mut place: usize = from;
    while place < text.len() && blank(text[place])
        invariant
            from <= place <= text.len(),
            after_blanks(text@, place as int) == after_blanks(text@, from as int),
        decreases text.len() - place,
    {
        place = place + 1;
    }
    place
}

/// The place of the mark of the tag that opens at `at`, if a tag opens
/// there.
fn mark_of_tag(text: &Vec<char>, at: usize) -> (mark: Option<usize>)
    requires
        at < text.len(),
    ensures
        match mark {
            Some(place) => place < text.len() && place == after_tag_prefix(text@, at + 2)
                && forall|c: char| tag_at(text@, at as int, c) <==> text@[place as int] == c,
            None => forall|c: char| !tag_at(text@, at as int, c),
        },
{
    if text[at] != '{' || text.len() - at < 2 || text[at + 1] != '{' {
        return None;
    }
    let place = skip_tag_prefix(text, at + 2);
    if place < text.len() {
        Some(place)
    } else {
        None
    }
}

/// Whether the text holds a tag with the mark `mark`.
pub fn holds_tag(text: &Vec<char>, mark: char) -> (found: bool)
    ensures
        found == has_tag(text@, mark),
{
    let mut at: usize = 0;
    while at < text.len()
        invariant
            at <= text.len(),
            forall|before: int| 0 <= before < at ==> !tag_at(text@, before, mark),
        decreases text.len() - at,
    {
        match mark_of_tag(text, at) {
            Some(place) => {
                if text[place] == mark {
                    assert(tag_at(text@, at as int, mark));
                    return true;
                }
            },
            None => {},
        }
        at = at + 1;
    }
    false
}

/// Whether every tag of the text that takes a template in names it plainly.
pub fn names_plainly(text: &Vec<char>) -> (plain: bool)
    ensures
        plain == plainly_named(text@),
{
    let mut at: usize = 0;
    while at < text.len()
        invariant
            at <= text.len(),
            forall|before: int| 0 <= before < at ==> #[trigger] plain_at(text@, before),
        decreases text.len() - at,
    {
        match mark_of_tag(text, at) {
            Some(place) => {
                if text[place] == '>' {
                    let start = skip_blanks(text, place + 1);
                    if start >= text.len() || !name_char(text[start]) {
                        assert(!plain_at(text@, at as int));
                        return false;
                    }
                }
            },
            None => {},
        }
        at = at + 1;
    }
    true
}

/// Whether the two hold the same characters.
pub fn same_chars(left: &Vec<char>, right: &Vec<char>) -> (same: bool)
    ensures
        same == (left@ == right@),
{
    if left.len() != right.len() {
        return false;
    }
    assert(left@.subrange(0, 0 + right.len()) =~= left@);
    stands_at(left, 0, right)
}

/// Whether `name` stands in `text` at `start`.
fn stands_at(text: &Vec<char>, start: usize, name: &Vec<char>) -> (stands: bool)
    requires
        start <= text.len(),
    ensures
        stands == (start + name.len() <= text.len() && text@.subrange(
            start as int,
            start + name.len(),
        ) == name@),
{
    if text.len() - start < name.len() {
        return false;
    }
    let mut seen: usize = 0;
    while seen < name.len()
        invariant
            seen <= name.len(),
            start + name.len() <= text.len(),
            text@.subrange(start as int, start + seen) == name@.take(seen as int),
        decreases name.len() - seen,
    {
        if text[start + seen] != name[seen] {
            assert(text@.subrange(start as int, start + name.len())[seen as int]
                != name@[seen as int]);
            return false;
        }
        proof {
            assert(text@.subrange(start as int, start + seen + 1) == text@.subrange(
                start as int,
                start + seen,
            ).push(text@[start + seen]));
            assert(name@.take(seen + 1) == name@.take(seen as int).push(name@[seen as int]));
        }
        seen = seen + 1;
    }
    assert(name@.take(seen as int) == name@);
    true
}

/// Whether the text may take in the template `name`.
pub fn takes_in(text: &Vec<char>, name: &Vec<char>) -> (found: bool)
    ensures
        found == may_include(text@, name@),
{
    let mut at: usize = 0;
    while at < text.len()
        invariant
            at <= text.len(),
            forall|before: int| 0 <= before < at ==> !names_at(text@, before, name@),
        decreases text.len() - at,
    {
        match mark_of_tag(text, at) {
            Some(place) => {
                if text[place] == '>' {
                    let start = skip_blanks(text, place + 1);
                    if stands_at(text, start, name) {
                        let end = start + name.len();
                        if end == text.len() || !name_char(text[end]) {
                            assert(names_at(text@, at as int, name@));
                            return true;
                        }
                    }
                }
            },
            None => {},
        }
        at = at + 1;
    }
    assert forall|any: int| !names_at(text@, any, name@) by {
        if names_at(text@, any, name@) {
            assert(0 <= any < text.len());
        }
    }
    false
}

} // verus!
