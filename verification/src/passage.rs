//! Passage segmentation for lexical indexing.
//!
//! A markdown file is read as UTF-8 text (invalid sequences replaced, as
//! `String::from_utf8_lossy` does). An optional frontmatter block opens with a
//! line that trims to `---` and closes with the next such line; its recognized
//! fields (`title`, `tags`, `aliases`, `summary`) each become a passage. The
//! body is split into one passage per paragraph: a maximal run of non-blank
//! lines, trimmed. Every passage records the byte offset of its line (fields)
//! or of its first non-whitespace byte (paragraphs).
use vstd::prelude::*;
use crate::text::{
    all_ws, byte_len, byte_offsets, chars_of, is_ws, leading_ws, lemma_trim_bounds, lemma_trim_empty,
    lossy_utf8, push_char, trim_bounds_spec,
    str_eq, string_of, trim, trim_range, trim_start, trimmed, utf8_lossy,
};
use vstd::utf8::valid_utf8;
use crate::yaml::{opt_string_view, yaml_field, yaml_field_of, FieldValue, FieldView};

verus! {

/// The kind of content a passage contains.
#[derive(Clone, Copy, Debug, PartialEq, Eq, Structural, Hash, PartialOrd, Ord)]
pub enum PassageKind {
    /// A body paragraph.
    Body,
    /// The frontmatter `title` field.
    Title,
    /// The frontmatter `tags` field.
    Tags,
    /// The frontmatter `aliases` field.
    Aliases,
    /// The frontmatter `summary` field.
    Summary,
}

/// The stable database key of a passage kind.
pub open spec fn passage_kind_key(kind: PassageKind) -> Seq<char> {
    match kind {
        PassageKind::Body => "body"@,
        PassageKind::Title => "title"@,
        PassageKind::Tags => "tags"@,
        PassageKind::Aliases => "aliases"@,
        PassageKind::Summary => "summary"@,
    }
}

/// The passage kind whose stable key is `key`, if any.
pub open spec fn passage_kind_from_key(key: Seq<char>) -> Option<PassageKind> {
    if key == "body"@ {
        Some(PassageKind::Body)
    } else if key == "title"@ {
        Some(PassageKind::Title)
    } else if key == "tags"@ {
        Some(PassageKind::Tags)
    } else if key == "aliases"@ {
        Some(PassageKind::Aliases)
    } else if key == "summary"@ {
        Some(PassageKind::Summary)
    } else {
        None
    }
}

impl PassageKind {
    /// Returns the stable database key for this passage kind.
    pub fn as_str(self) -> (s: &'static str)
        ensures
            s@ == passage_kind_key(self),
    {
        match self {
            PassageKind::Body => "body",
            PassageKind::Title => "title",
            PassageKind::Tags => "tags",
            PassageKind::Aliases => "aliases",
            PassageKind::Summary => "summary",
        }
    }

    /// Reconstructs a passage kind from its stable database key.
    pub fn from_key(key: &str) -> (r: Option<PassageKind>)
        ensures
            r == passage_kind_from_key(key@),
    {
        if str_eq(key, "body") {
            Some(PassageKind::Body)
        } else if str_eq(key, "title") {
            Some(PassageKind::Title)
        } else if str_eq(key, "tags") {
            Some(PassageKind::Tags)
        } else if str_eq(key, "aliases") {
            Some(PassageKind::Aliases)
        } else if str_eq(key, "summary") {
            Some(PassageKind::Summary)
        } else {
            None
        }
    }
}

/// Every passage kind is recovered from its stable key, and no two kinds
/// share a key.
pub proof fn lemma_passage_kind_key_round_trip(kind: PassageKind)
    ensures
        passage_kind_from_key(passage_kind_key(kind)) == Some(kind),
{
    reveal_strlit("body");
    reveal_strlit("title");
    reveal_strlit("tags");
    reveal_strlit("aliases");
    reveal_strlit("summary");
    assert("body"@[0] == 'b' && "title"@[0] == 't' && "tags"@[0] == 't' && "aliases"@[0] == 'a'
        && "summary"@[0] == 's');
    assert("title"@.len() == 5 && "tags"@.len() == 4);
}

/// A single indexed passage of a markdown file.
#[derive(Clone, Debug, PartialEq, Eq)]
pub struct Passage {
    kind: PassageKind,
    text: String,
    byte_offset: usize,
}

impl View for Passage {
    type V = (PassageKind, Seq<char>, int);

    closed spec fn view(&self) -> (PassageKind, Seq<char>, int) {
        (self.kind, self.text@, self.byte_offset as int)
    }
}

impl Passage {
    /// Creates a passage with the given kind, text, and byte offset in its file.
    pub fn new(kind: PassageKind, text: String, byte_offset: usize) -> (p: Passage)
        ensures
            p@ == (kind, text@, byte_offset as int),
    {
        Passage { kind, text, byte_offset }
    }

    /// Returns the passage kind.
    pub fn kind(&self) -> (k: PassageKind)
        ensures
            k == self@.0,
    {
        self.kind
    }

    /// Returns the passage text.
    pub fn text(&self) -> (t: &str)
        ensures
            t@ == self@.1,
    {
        self.text.as_str()
    }

    /// Returns the byte offset of the passage in its file.
    pub fn byte_offset(&self) -> (o: usize)
        ensures
            o == self@.2,
    {
        self.byte_offset
    }
}

/// Describes a lenient frontmatter handling outcome.
#[derive(Clone, Copy, Debug, PartialEq, Eq, Structural)]
pub enum FrontmatterIssue {
    /// The frontmatter block could not be parsed; the file is indexed body-only.
    Malformed,
}

/// The position of the first `'\n'` at or after `i`, or the text length.
pub open spec fn next_nl(t: Seq<char>, i: int) -> int
    decreases t.len() - i,
{
    if i >= t.len() {
        t.len() as int
    } else if t[i] == '\n' {
        i
    } else {
        next_nl(t, i + 1)
    }
}

/// One past the end of the line starting at `s`, its `'\n'` included.
pub open spec fn line_end(t: Seq<char>, s: int) -> int {
    if next_nl(t, s) < t.len() {
        next_nl(t, s) + 1
    } else {
        t.len() as int
    }
}

/// Facts about newline search.
pub proof fn lemma_next_nl(t: Seq<char>, i: int)
    requires
        0 <= i <= t.len(),
    ensures
        i <= next_nl(t, i) <= t.len(),
        next_nl(t, i) < t.len() ==> t[next_nl(t, i)] == '\n',
        forall|k: int| i <= k < next_nl(t, i) ==> t[k] != '\n',
        i <= line_end(t, i) <= t.len(),
        i < t.len() ==> i < line_end(t, i),
    decreases t.len() - i,
{
    if i < t.len() && t[i] != '\n' {
        lemma_next_nl(t, i + 1);
    }
}

/// A line that trims to `---`.
pub open spec fn is_delimiter(line: Seq<char>) -> bool {
    trim(line) == seq!['-', '-', '-']
}

/// The start of the first delimiter line at or after line start `s`.
pub open spec fn closing_from(t: Seq<char>, s: int) -> Option<int>
    decreases t.len() - s,
{
    if s < 0 || s > t.len() {
        None
    } else if is_delimiter(t.subrange(s, line_end(t, s))) {
        Some(s)
    } else if next_nl(t, s) < t.len() {
        proof {
            lemma_next_nl(t, s);
        }
        closing_from(t, next_nl(t, s) + 1)
    } else {
        None
    }
}

/// Where a frontmatter block lies: `(block start, closing line start, body
/// start)`, when the first line is a delimiter and a closing delimiter line
/// follows.
pub open spec fn frontmatter_layout(t: Seq<char>) -> Option<(int, int, int)> {
    let first_end = line_end(t, 0);
    if is_delimiter(t.subrange(0, first_end)) && next_nl(t, 0) < t.len() {
        match closing_from(t, first_end) {
            Some(c) => Some((first_end, c, line_end(t, c))),
            None => None,
        }
    } else {
        None
    }
}

/// Whether a (start-trimmed) frontmatter line declares `key`.
pub open spec fn declares_key(line: Seq<char>, key: Seq<char>) -> bool {
    line == key || (line.len() > key.len() && line.take(key.len() as int) == key && line[key.len()
        as int] == ':')
}

/// The start of the first line in `[s, closing)` that declares `key`.
pub open spec fn field_line(t: Seq<char>, s: int, closing: int, key: Seq<char>) -> Option<int>
    decreases t.len() - s,
{
    if s < 0 || s >= closing || s >= t.len() {
        None
    } else if declares_key(trim_start(t.subrange(s, line_end(t, s))), key) {
        Some(s)
    } else {
        proof {
            lemma_next_nl(t, s);
        }
        field_line(t, line_end(t, s), closing, key)
    }
}

/// The position recorded for a field: its declaring line, or 0.
pub open spec fn field_position(t: Seq<char>, s: int, closing: int, key: Seq<char>) -> int {
    match field_line(t, s, closing, key) {
        Some(p) => p,
        None => 0,
    }
}

/// The string items of a sequence, in order.
pub open spec fn string_items(items: Seq<Option<Seq<char>>>) -> Seq<Seq<char>>
    decreases items.len(),
{
    if items.len() == 0 {
        Seq::empty()
    } else {
        let rest = string_items(items.drop_last());
        match items.last() {
            Some(s) => rest.push(s),
            None => rest,
        }
    }
}

/// `parts` joined by single spaces.
pub open spec fn join_spaces(parts: Seq<Seq<char>>) -> Seq<char>
    decreases parts.len(),
{
    if parts.len() == 0 {
        Seq::empty()
    } else if parts.len() == 1 {
        parts[0]
    } else {
        join_spaces(parts.drop_last()) + seq![' '] + parts.last()
    }
}

/// The passage text of a field: a trimmed non-empty scalar, or the string
/// items of a sequence joined by spaces when there is at least one.
pub open spec fn field_text_of(value: FieldView) -> Option<Seq<char>> {
    match value {
        FieldView::Text(s) => if trim(s).len() == 0 {
            None
        } else {
            Some(trim(s))
        },
        FieldView::List(items) => if string_items(items).len() == 0 {
            None
        } else {
            Some(join_spaces(string_items(items)))
        },
        FieldView::Other => None,
    }
}

/// The field passage for `key` (kind, text, character position), if any.
pub open spec fn field_entry(
    t: Seq<char>,
    layout: (int, int, int),
    kind: PassageKind,
    key: Seq<char>,
) -> Seq<(PassageKind, Seq<char>, int)> {
    let block = t.subrange(layout.0, layout.1);
    match yaml_field_of(block, key) {
        Some(value) => match field_text_of(value) {
            Some(text) => seq![(kind, text, field_position(t, layout.0, layout.1, key))],
            None => Seq::empty(),
        },
        None => Seq::empty(),
    }
}

/// The frontmatter fields (at character positions), the position where the
/// body starts, and the frontmatter issue.
pub open spec fn frontmatter_spec(t: Seq<char>) -> (
    Seq<(PassageKind, Seq<char>, int)>,
    int,
    Option<FrontmatterIssue>,
) {
    match frontmatter_layout(t) {
        None => (Seq::empty(), 0, None),
        Some(layout) => {
            let block = t.subrange(layout.0, layout.1);
            if yaml_field_of(block, "title"@) is None {
                (Seq::empty(), layout.2, Some(FrontmatterIssue::Malformed))
            } else {
                (
                    field_entry(t, layout, PassageKind::Title, "title"@) + field_entry(
                        t,
                        layout,
                        PassageKind::Tags,
                        "tags"@,
                    ) + field_entry(t, layout, PassageKind::Aliases, "aliases"@) + field_entry(
                        t,
                        layout,
                        PassageKind::Summary,
                        "summary"@,
                    ),
                    layout.2,
                    None,
                )
            }
        },
    }
}

/// The paragraph spanning `[o, end)`: its trimmed text at the position of
/// its first non-whitespace character, unless it is blank.
pub open spec fn paragraph_at(t: Seq<char>, o: int, end: int) -> Seq<(Seq<char>, int)> {
    let raw = t.subrange(o, end);
    if trim(raw).len() == 0 {
        Seq::empty()
    } else {
        seq![(trim(raw), o + leading_ws(raw))]
    }
}

/// The paragraphs of the lines from line start `i` on, where `open` holds the
/// position at which the paragraph in progress started, if any. A blank line
/// closes the paragraph in progress; the first non-blank line after a blank
/// one opens a paragraph at its first non-whitespace character.
pub open spec fn paragraphs_from(t: Seq<char>, i: int, open: Option<int>) -> Seq<(Seq<char>, int)>
    decreases t.len() - i,
{
    if i < 0 || i > t.len() {
        Seq::empty()
    } else {
        let e = next_nl(t, i);
        let line = t.subrange(i, e);
        let blank = all_ws(line);
        let closed = if blank && open is Some {
            paragraph_at(t, open->0, i)
        } else {
            Seq::empty()
        };
        let still_open = if blank {
            None
        } else if open is None {
            Some(i + leading_ws(line))
        } else {
            open
        };
        if e >= t.len() {
            closed + match still_open {
                Some(o) => paragraph_at(t, o, t.len() as int),
                None => Seq::empty(),
            }
        } else {
            proof {
                lemma_next_nl(t, i);
            }
            closed + paragraphs_from(t, e + 1, still_open)
        }
    }
}

/// The passages of text `t` with character positions, and the issue.
pub open spec fn located_passages(t: Seq<char>) -> (
    Seq<(PassageKind, Seq<char>, int)>,
    Option<FrontmatterIssue>,
) {
    let (fields, body, issue) = frontmatter_spec(t);
    (
        fields + paragraphs_from(t, body, None).map_values(
            |p: (Seq<char>, int)| (PassageKind::Body, p.0, p.1),
        ),
        issue,
    )
}

/// The passages of text `t` with byte offsets, and the issue.
pub open spec fn segment_text(t: Seq<char>) -> (
    Seq<(PassageKind, Seq<char>, int)>,
    Option<FrontmatterIssue>,
) {
    let (located, issue) = located_passages(t);
    (
        located.map_values(
            |p: (PassageKind, Seq<char>, int)| (p.0, p.1, byte_len(t.take(p.2)) as int),
        ),
        issue,
    )
}

/// The passages of file content, with byte offsets, and the issue.
pub open spec fn segment_spec(content: Seq<u8>) -> (
    Seq<(PassageKind, Seq<char>, int)>,
    Option<FrontmatterIssue>,
) {
    segment_text(lossy_utf8(content))
}

/// The views of a vector of passages.
pub open spec fn passages_view(v: Seq<Passage>) -> Seq<(PassageKind, Seq<char>, int)> {
    v.map_values(|p: Passage| p@)
}

/// Finds the first newline at or after `i`.
pub(crate) fn next_newline(t: &[char], i: usize) -> (e: usize)
    requires
        i <= t@.len(),
    ensures
        e == next_nl(t@, i as int),
{
    let mut j = i;
    while j < t.len() && t[j] != '\n'
        invariant
            i <= j <= t@.len(),
            next_nl(t@, j as int) == next_nl(t@, i as int),
        decreases t@.len() - j,
    {
        j = j + 1;
    }
    j
}

/// One past the end of the line starting at `s`, its newline included.
pub(crate) fn line_end_at(t: &[char], s: usize) -> (e: usize)
    requires
        s <= t@.len(),
    ensures
        e == line_end(t@, s as int),
        s <= e <= t@.len(),
{
    proof {
        lemma_next_nl(t@, s as int);
    }
    let n = next_newline(t, s);
    if n < t.len() {
        n + 1
    } else {
        t.len()
    }
}

/// Whether `t[s..e]` trims to `---`.
fn is_delimiter_line(t: &[char], s: usize, e: usize) -> (b: bool)
    requires
        s <= e <= t@.len(),
    ensures
        b == is_delimiter(t@.subrange(s as int, e as int)),
{
    let (a, z) = trim_range(t, s, e);
    if z - a == 3 && t[a] == '-' && t[a + 1] == '-' && t[a + 2] == '-' {
        assert(t@.subrange(a as int, z as int) =~= seq!['-', '-', '-']);
        true
    } else {
        proof {
            if t@.subrange(a as int, z as int) =~= seq!['-', '-', '-'] {
                assert(t@.subrange(a as int, z as int)[0] == t@[a as int]);
                assert(t@.subrange(a as int, z as int)[1] == t@[a + 1]);
                assert(t@.subrange(a as int, z as int)[2] == t@[a + 2]);
            }
        }
        false
    }
}

/// Finds the start of the closing delimiter line, searching from line
/// start `s`.
fn find_closing_line(t: &[char], s: usize) -> (r: Option<usize>)
    requires
        s <= t@.len(),
    ensures
        r matches Some(c) ==> closing_from(t@, s as int) == Some(c as int) && s <= c <= t@.len(),
        r is None ==> closing_from(t@, s as int) is None,
{
    let mut i = s;
    while i <= t.len()
        invariant
            s <= i <= t@.len() + 1,
            i <= t@.len() ==> closing_from(t@, s as int) == closing_from(t@, i as int),
            i > t@.len() ==> closing_from(t@, s as int) is None,
        decreases t@.len() + 1 - i,
    {
        proof {
            lemma_next_nl(t@, i as int);
        }
        let e = line_end_at(t, i);
        if is_delimiter_line(t, i, e) {
            return Some(i);
        }
        let n = next_newline(t, i);
        if n >= t.len() {
            return None;
        }
        i = n + 1;
    }
    None
}

/// Whether `t[s..e]`, start-trimmed, declares `key`.
fn line_declares_key(t: &[char], s: usize, e: usize, key: &[char]) -> (b: bool)
    requires
        s <= e <= t@.len(),
    ensures
        b == declares_key(trim_start(t@.subrange(s as int, e as int)), key@),
{
    let (a, _z) = trim_range(t, s, e);
    let ghost sub = t@.subrange(s as int, e as int);
    let ghost line = trim_start(sub);
    assert(line =~= t@.subrange(a as int, e as int));
    let n = e - a;
    if n == key.len() {
        let mut i: usize = 0;
        while i < n
            invariant
                n == key@.len(),
                a + n == e <= t@.len(),
                line == trim_start(t@.subrange(s as int, e as int)),
                line =~= t@.subrange(a as int, e as int),
                0 <= i <= n,
                forall|k: int| 0 <= k < i ==> line[k] == key@[k],
            decreases n - i,
        {
            if t[a + i] != key[i] {
                assert(line[i as int] != key@[i as int]);
                return false;
            }
            i = i + 1;
        }
        assert(line =~= key@);
        return true;
    } else if n > key.len() {
        let mut i: usize = 0;
        while i < key.len()
            invariant
                n > key@.len(),
                a + n == e <= t@.len(),
                line == trim_start(t@.subrange(s as int, e as int)),
                line =~= t@.subrange(a as int, e as int),
                0 <= i <= key@.len(),
                forall|k: int| 0 <= k < i ==> line[k] == key@[k],
            decreases key@.len() - i,
        {
            if t[a + i] != key[i] {
                assert(line.take(key@.len() as int)[i as int] != key@[i as int]);
                return false;
            }
            i = i + 1;
        }
        assert(line.take(key@.len() as int) =~= key@);
        assert(line[key@.len() as int] == t@[a + key@.len()]);
        return t[a + key.len()] == ':';
    }
    false
}

/// The position of the frontmatter line that declares `key` (lines from
/// `s` up to the closing line), or 0.
fn field_offset(t: &[char], s: usize, closing: usize, key: &[char]) -> (p: usize)
    requires
        s <= closing <= t@.len(),
    ensures
        p == field_position(t@, s as int, closing as int, key@),
        p <= t@.len(),
{
    let mut i = s;
    while i < closing
        invariant
            s <= i <= t@.len(),
            closing <= t@.len(),
            field_line(t@, s as int, closing as int, key@) == field_line(
                t@,
                i as int,
                closing as int,
                key@,
            ),
        decreases t@.len() - i,
    {
        proof {
            lemma_next_nl(t@, i as int);
        }
        let e = line_end_at(t, i);
        if line_declares_key(t, i, e, key) {
            return i;
        }
        i = e;
    }
    0
}

/// The string items of a YAML sequence.
fn string_parts(items: &Vec<Option<String>>) -> (parts: Vec<String>)
    ensures
        parts@.map_values(|s: String| s@) == string_items(
            items@.map_values(|o: Option<String>| opt_string_view(o)),
        ),
{
    let ghost iv = items@.map_values(|o: Option<String>| opt_string_view(o));
    let mut parts: Vec<String> = Vec::new();
    let mut i: usize = 0;
    while i < items.len()
        invariant
            0 <= i <= items@.len(),
            iv == items@.map_values(|o: Option<String>| opt_string_view(o)),
            parts@.map_values(|s: String| s@) == string_items(iv.take(i as int)),
        decreases items@.len() - i,
    {
        assert(iv.take(i + 1).drop_last() =~= iv.take(i as int));
        match &items[i] {
            Some(s) => {
                parts.push(s.clone());
                assert(parts@.map_values(|s: String| s@) =~= string_items(iv.take(i as int)).push(
                    s@,
                ));
            },
            None => {},
        }
        i = i + 1;
    }
    assert(iv.take(items@.len() as int) =~= iv);
    parts
}

/// `parts` joined by single spaces.
fn join_with_spaces(parts: &Vec<String>) -> (out: String)
    ensures
        out@ == join_spaces(parts@.map_values(|s: String| s@)),
{
    let ghost pv = parts@.map_values(|s: String| s@);
    let mut out = String::new();
    let mut i: usize = 0;
    while i < parts.len()
        invariant
            0 <= i <= parts@.len(),
            pv == parts@.map_values(|s: String| s@),
            out@ == join_spaces(pv.take(i as int)),
        decreases parts@.len() - i,
    {
        assert(pv.take(i + 1).drop_last() =~= pv.take(i as int));
        if i > 0 {
            push_char(&mut out, ' ');
        }
        out.append(parts[i].as_str());
        proof {
            if i == 0 {
                assert(pv.take(1) =~= seq![pv[0]]);
                assert(out@ =~= pv[0]);
            }
        }
        i = i + 1;
    }
    assert(pv.take(parts@.len() as int) =~= pv);
    out
}

/// The passage text of a field value.
fn field_text(value: &FieldValue) -> (r: Option<String>)
    ensures
        match r {
            Some(s) => field_text_of(value@) == Some(s@),
            None => field_text_of(value@) is None,
        },
{
    match value {
        FieldValue::Text(s) => {
            let t = trimmed(s.as_str());
            if t.as_str().is_empty() {
                None
            } else {
                Some(t)
            }
        },
        FieldValue::List(items) => {
            let parts = string_parts(items);
            if parts.len() == 0 {
                None
            } else {
                Some(join_with_spaces(&parts))
            }
        },
        FieldValue::Other => None,
    }
}

/// Adds the passage for field `key` of the frontmatter, if it has text.
fn push_field(
    fields: &mut Vec<(PassageKind, String, usize)>,
    t: &[char],
    block: &str,
    layout: (usize, usize, usize),
    kind: PassageKind,
    key: &str,
)
    requires
        layout.0 <= layout.1 <= t@.len(),
        block@ == t@.subrange(layout.0 as int, layout.1 as int),
    ensures
        final(fields)@.map_values(|f: (PassageKind, String, usize)| (f.0, f.1@, f.2 as int))
            == old(fields)@.map_values(|f: (PassageKind, String, usize)| (f.0, f.1@, f.2 as int))
            + field_entry(
            t@,
            (layout.0 as int, layout.1 as int, layout.2 as int),
            kind,
            key@,
        ),
        forall|k: int|
            old(fields)@.len() <= k < final(fields)@.len() ==> final(fields)@[k].2 <= t@.len(),
        final(fields)@.len() >= old(fields)@.len(),
        forall|k: int| 0 <= k < old(fields)@.len() ==> final(fields)@[k] == old(fields)@[k],
{
    let ghost before = fields@;
    if let Some(value) = yaml_field(block, key) {
        if let Some(text) = field_text(&value) {
            let key_chars = chars_of(key);
            let offset = field_offset(t, layout.0, layout.1, key_chars.as_slice());
            fields.push((kind, text, offset));
            assert(fields@.map_values(|f: (PassageKind, String, usize)| (f.0, f.1@, f.2 as int))
                =~= before.map_values(|f: (PassageKind, String, usize)| (f.0, f.1@, f.2 as int))
                + field_entry(
                t@,
                (layout.0 as int, layout.1 as int, layout.2 as int),
                kind,
                key@,
            ));
            return ;
        }
    }
    assert(fields@.map_values(|f: (PassageKind, String, usize)| (f.0, f.1@, f.2 as int))
        =~= before.map_values(|f: (PassageKind, String, usize)| (f.0, f.1@, f.2 as int))
        + field_entry(t@, (layout.0 as int, layout.1 as int, layout.2 as int), kind, key@));
}

/// The view of extracted fields.
pub open spec fn fields_view(v: Seq<(PassageKind, String, usize)>) -> Seq<
    (PassageKind, Seq<char>, int),
> {
    v.map_values(|f: (PassageKind, String, usize)| (f.0, f.1@, f.2 as int))
}

/// Splits the text into its frontmatter fields (at character positions),
/// the position where the body starts, and any frontmatter issue.
fn extract_frontmatter(t: &[char]) -> (r: (
    Vec<(PassageKind, String, usize)>,
    usize,
    Option<FrontmatterIssue>,
))
    ensures
        fields_view(r.0@) == frontmatter_spec(t@).0,
        r.1 as int == frontmatter_spec(t@).1,
        r.2 == frontmatter_spec(t@).2,
        r.1 <= t@.len(),
        forall|k: int| 0 <= k < r.0@.len() ==> #[trigger] r.0@[k].2 <= t@.len(),
{
    let mut fields: Vec<(PassageKind, String, usize)> = Vec::new();
    proof {
        lemma_next_nl(t@, 0);
    }
    let first_end = line_end_at(t, 0);
    let first_nl = next_newline(t, 0);
    if !is_delimiter_line(t, 0, first_end) || first_nl >= t.len() {
        assert(fields_view(fields@) =~= Seq::empty());
        return (fields, 0, None);
    }
    let closing = match find_closing_line(t, first_end) {
        Some(c) => c,
        None => {
            assert(fields_view(fields@) =~= Seq::empty());
            return (fields, 0, None);
        },
    };
    let body_start = line_end_at(t, closing);
    let layout = (first_end, closing, body_start);
    let block = string_of(t, first_end, closing);
    if yaml_field(block.as_str(), "title").is_none() {
        assert(fields_view(fields@) =~= Seq::empty());
        return (fields, body_start, Some(FrontmatterIssue::Malformed));
    }
    assert(fields_view(fields@) =~= Seq::empty());
    push_field(&mut fields, t, block.as_str(), layout, PassageKind::Title, "title");
    push_field(&mut fields, t, block.as_str(), layout, PassageKind::Tags, "tags");
    push_field(&mut fields, t, block.as_str(), layout, PassageKind::Aliases, "aliases");
    push_field(&mut fields, t, block.as_str(), layout, PassageKind::Summary, "summary");
    (fields, body_start, None)
}

/// Records the paragraph spanning `[offset, end)` when it is not blank.
fn push_paragraph(result: &mut Vec<(String, usize)>, t: &[char], offset: usize, end: usize)
    requires
        offset <= end <= t@.len(),
    ensures
        final(result)@.map_values(|p: (String, usize)| (p.0@, p.1 as int)) == old(
            result,
        )@.map_values(|p: (String, usize)| (p.0@, p.1 as int)) + paragraph_at(
            t@,
            offset as int,
            end as int,
        ),
        forall|k: int|
            old(result)@.len() <= k < final(result)@.len() ==> final(result)@[k].1 <= t@.len(),
        final(result)@.len() >= old(result)@.len(),
        forall|k: int| 0 <= k < old(result)@.len() ==> final(result)@[k] == old(result)@[k],
{
    let ghost before = result@;
    let (a, b) = trim_range(t, offset, end);
    proof {
        lemma_trim_empty(t@.subrange(offset as int, end as int));
    }
    if a < b {
        let text = string_of(t, a, b);
        result.push((text, a));
    }
    assert(result@.map_values(|p: (String, usize)| (p.0@, p.1 as int)) =~= before.map_values(
        |p: (String, usize)| (p.0@, p.1 as int),
    ) + paragraph_at(t@, offset as int, end as int));
}

/// Splits the body starting at `start` into paragraphs with the character
/// position of each paragraph's first non-whitespace character.
fn split_paragraphs(t: &[char], start: usize) -> (r: Vec<(String, usize)>)
    requires
        start <= t@.len(),
    ensures
        r@.map_values(|p: (String, usize)| (p.0@, p.1 as int)) == paragraphs_from(
            t@,
            start as int,
            None,
        ),
        forall|k: int| 0 <= k < r@.len() ==> #[trigger] r@[k].1 <= t@.len(),
{
    let mut result: Vec<(String, usize)> = Vec::new();
    let mut open: Option<usize> = None;
    let mut index = start;
    loop
        invariant
            index <= t@.len(),
            open matches Some(o) ==> o <= index,
            paragraphs_from(t@, start as int, None) == result@.map_values(
                |p: (String, usize)| (p.0@, p.1 as int),
            ) + paragraphs_from(
                t@,
                index as int,
                match open {
                    Some(o) => Some(o as int),
                    None => None,
                },
            ),
            forall|k: int| 0 <= k < result@.len() ==> #[trigger] result@[k].1 <= t@.len(),
        decreases t@.len() - index,
    {
        proof {
            lemma_next_nl(t@, index as int);
        }
        let line_end = next_newline(t, index);
        let (a, b) = trim_range(t, index, line_end);
        proof {
            lemma_trim_empty(t@.subrange(index as int, line_end as int));
        }
        let ghost old_view = result@.map_values(|p: (String, usize)| (p.0@, p.1 as int));
        let ghost old_open = match open {
            Some(o) => Some(o as int),
            None => None::<int>,
        };
        if a == b {
            if let Some(o) = open {
                push_paragraph(&mut result, t, o, index);
            }
            open = None;
        } else if open.is_none() {
            open = Some(a);
        }
        if line_end == t.len() {
            if let Some(o) = open {
                push_paragraph(&mut result, t, o, t.len());
            }
            return result;
        }
        index = line_end + 1;
    }
}

/// Segments markdown file content into indexed passages.
///
/// Recognized frontmatter fields (`title`, `tags`, `aliases`, `summary`) each
/// become their own passage, and the body is split into one passage per
/// paragraph (contiguous non-blank lines). Each passage records its byte offset
/// in the input content. Frontmatter is optional and lenient: a missing or
/// malformed block never fails, and malformed frontmatter yields body-only
/// passages flagged by [`FrontmatterIssue::Malformed`]. An empty file yields no
/// passages.
pub fn segment_passages(content: &[u8]) -> (r: (Vec<Passage>, Option<FrontmatterIssue>))
    ensures
        passages_view(r.0@) == segment_spec(content@).0,
        r.1 == segment_spec(content@).1,
        content@.len() == 0 ==> r.0@.len() == 0 && r.1 is None,
        r.1 == Some(FrontmatterIssue::Malformed) ==> forall|k: int|
            0 <= k < r.0@.len() ==> (#[trigger] r.0@[k])@.0 == PassageKind::Body,
{
    let text = utf8_lossy(content);
    proof {
        lemma_malformed_is_body_only(text@);
        if content@.len() == 0 {
            assert(valid_utf8(content@));
            assert(text@ =~= Seq::<char>::empty());
            assert(frontmatter_layout(text@) is None);
            assert(paragraphs_from(text@, 0, None) =~= Seq::empty());
        }
    }
    let cs = chars_of(text.as_str());
    let t = cs.as_slice();
    let offs = byte_offsets(t);
    let (fields, body_start, issue) = extract_frontmatter(t);
    let paragraphs = split_paragraphs(t, body_start);
    let ghost located = located_passages(t@).0;
    let mut passages: Vec<Passage> = Vec::new();
    let mut i: usize = 0;
    while i < fields.len()
        invariant
            0 <= i <= fields@.len(),
            offs@.len() == t@.len() + 1,
            forall|k: int| 0 <= k <= t@.len() ==> #[trigger] offs@[k] == byte_len(t@.take(k)),
            forall|k: int| 0 <= k < fields@.len() ==> #[trigger] fields@[k].2 <= t@.len(),
            passages_view(passages@) == fields_view(fields@).take(i as int).map_values(
                |p: (PassageKind, Seq<char>, int)| (p.0, p.1, byte_len(t@.take(p.2)) as int),
            ),
        decreases fields@.len() - i,
    {
        let kind = fields[i].0;
        let value = fields[i].1.clone();
        let position = fields[i].2;
        let p = Passage::new(kind, value, offs[position]);
        let ghost pv = p@;
        assert(pv == (fields_view(fields@)[i as int].0, fields_view(fields@)[i as int].1, byte_len(
            t@.take(fields_view(fields@)[i as int].2),
        ) as int));
        let ghost before = passages@;
        passages.push(p);
        assert(passages_view(passages@) =~= passages_view(before).push(pv));
        assert(fields_view(fields@).take(i + 1) =~= fields_view(fields@).take(i as int).push(
            fields_view(fields@)[i as int],
        ));
        assert(passages_view(passages@) =~= fields_view(fields@).take(i + 1).map_values(
            |p: (PassageKind, Seq<char>, int)| (p.0, p.1, byte_len(t@.take(p.2)) as int),
        ));
        i = i + 1;
    }
    assert(fields_view(fields@).take(fields@.len() as int) =~= fields_view(fields@));
    let ghost bodies = paragraphs@.map_values(|p: (String, usize)| (p.0@, p.1 as int)).map_values(
        |p: (Seq<char>, int)| (PassageKind::Body, p.0, p.1),
    );
    let mut j: usize = 0;
    while j < paragraphs.len()
        invariant
            0 <= j <= paragraphs@.len(),
            offs@.len() == t@.len() + 1,
            forall|k: int| 0 <= k <= t@.len() ==> #[trigger] offs@[k] == byte_len(t@.take(k)),
            forall|k: int| 0 <= k < paragraphs@.len() ==> #[trigger] paragraphs@[k].1 <= t@.len(),
            bodies == paragraphs@.map_values(|p: (String, usize)| (p.0@, p.1 as int)).map_values(
                |p: (Seq<char>, int)| (PassageKind::Body, p.0, p.1),
            ),
            passages_view(passages@) == (fields_view(fields@) + bodies.take(j as int)).map_values(
                |p: (PassageKind, Seq<char>, int)| (p.0, p.1, byte_len(t@.take(p.2)) as int),
            ),
        decreases paragraphs@.len() - j,
    {
        let value = paragraphs[j].0.clone();
        let position = paragraphs[j].1;
        let p = Passage::new(PassageKind::Body, value, offs[position]);
        let ghost pv = p@;
        assert(pv == (bodies[j as int].0, bodies[j as int].1, byte_len(t@.take(bodies[j as int].2))
            as int));
        let ghost before = passages@;
        passages.push(p);
        assert(passages_view(passages@) =~= passages_view(before).push(pv));
        assert((fields_view(fields@) + bodies.take(j + 1)) =~= (fields_view(fields@)
            + bodies.take(j as int)).push(bodies[j as int]));
        assert(passages_view(passages@) =~= (fields_view(fields@) + bodies.take(j + 1)).map_values(
            |p: (PassageKind, Seq<char>, int)| (p.0, p.1, byte_len(t@.take(p.2)) as int),
        ));
        j = j + 1;
    }
    assert(bodies.take(paragraphs@.len() as int) =~= bodies);
    assert forall|k: int| 0 <= k < passages@.len() implies (#[trigger] passages@[k])@.0
        == located[k].0 by {
        assert(passages_view(passages@)[k] == passages@[k]@);
    }
    (passages, issue)
}


/// Whether `s` is a non-empty trimmed stretch of `t` found verbatim at `p`.
pub open spec fn located_at(t: Seq<char>, s: Seq<char>, p: int) -> bool {
    &&& 0 <= p
    &&& p + s.len() <= t.len()
    &&& t.subrange(p, p + s.len()) == s
    &&& s.len() > 0
    &&& !is_ws(s[0])
    &&& !is_ws(s.last())
}

/// A closed paragraph is located at its recorded position.
pub proof fn lemma_paragraph_at_located(t: Seq<char>, o: int, end: int)
    requires
        0 <= o <= end <= t.len(),
    ensures
        forall|k: int|
            0 <= k < paragraph_at(t, o, end).len() ==> located_at(
                t,
                (#[trigger] paragraph_at(t, o, end)[k]).0,
                paragraph_at(t, o, end)[k].1,
            ),
{
    let raw = t.subrange(o, end);
    lemma_trim_bounds(raw);
    crate::text::lemma_leading_ws_props(raw);
    let (a, b) = trim_bounds_spec(raw);
    if trim(raw).len() > 0 {
        assert(t.subrange(o + a, o + a + trim(raw).len()) =~= trim(raw));
    }
}

/// Every paragraph found from line start `i` on is located at its position.
pub proof fn lemma_paragraphs_located(t: Seq<char>, i: int, open: Option<int>)
    requires
        0 <= i <= t.len(),
        open matches Some(o) ==> 0 <= o <= i,
    ensures
        forall|k: int|
            0 <= k < paragraphs_from(t, i, open).len() ==> located_at(
                t,
                (#[trigger] paragraphs_from(t, i, open)[k]).0,
                paragraphs_from(t, i, open)[k].1,
            ),
    decreases t.len() - i,
{
    lemma_next_nl(t, i);
    let e = next_nl(t, i);
    let line = t.subrange(i, e);
    crate::text::lemma_leading_ws_props(line);
    let blank = all_ws(line);
    let closed = if blank && open is Some {
        paragraph_at(t, open->0, i)
    } else {
        Seq::empty()
    };
    if blank && open is Some {
        lemma_paragraph_at_located(t, open->0, i);
    }
    let still_open = if blank {
        None
    } else if open is None {
        Some(i + leading_ws(line))
    } else {
        open
    };
    if !blank && open is None {
        crate::text::lemma_trim_empty(line);
        if leading_ws(line) >= line.len() {
            assert(all_ws(line));
        }
    }
    if e >= t.len() {
        let rest = match still_open {
            Some(o) => paragraph_at(t, o, t.len() as int),
            None => Seq::empty(),
        };
        if still_open is Some {
            lemma_paragraph_at_located(t, still_open->0, t.len() as int);
        }
        assert(paragraphs_from(t, i, open) == closed + rest);
        assert forall|k: int| 0 <= k < (closed + rest).len() implies located_at(
            t,
            (#[trigger] (closed + rest)[k]).0,
            (closed + rest)[k].1,
        ) by {
            if k < closed.len() {
                assert((closed + rest)[k] == closed[k]);
            } else {
                assert((closed + rest)[k] == rest[k - closed.len()]);
            }
        }
    } else {
        lemma_paragraphs_located(t, e + 1, still_open);
        let rest = paragraphs_from(t, e + 1, still_open);
        assert(paragraphs_from(t, i, open) == closed + rest);
        assert forall|k: int| 0 <= k < (closed + rest).len() implies located_at(
            t,
            (#[trigger] (closed + rest)[k]).0,
            (closed + rest)[k].1,
        ) by {
            if k < closed.len() {
                assert((closed + rest)[k] == closed[k]);
            } else {
                assert((closed + rest)[k] == rest[k - closed.len()]);
            }
        }
    }
}

/// Body passages are found verbatim in the text: each is a non-empty,
/// trimmed stretch of the text that starts at its recorded position (the
/// position of its first non-whitespace character). Field passages are never
/// of the body kind.
pub proof fn lemma_body_passages_located(t: Seq<char>)
    ensures
        forall|k: int|
            0 <= k < located_passages(t).0.len() && (#[trigger] located_passages(t).0[k]).0
                == PassageKind::Body ==> located_at(
                t,
                located_passages(t).0[k].1,
                located_passages(t).0[k].2,
            ),
{
    let (fields, body, issue) = frontmatter_spec(t);
    let paras = paragraphs_from(t, body, None);
    let bodies = paras.map_values(|p: (Seq<char>, int)| (PassageKind::Body, p.0, p.1));
    lemma_frontmatter_bounds(t);
    lemma_paragraphs_located(t, body, None);
    lemma_fields_not_body(t);
    assert forall|k: int|
        0 <= k < (fields + bodies).len() && (#[trigger] (fields + bodies)[k]).0
            == PassageKind::Body implies located_at(
        t,
        (fields + bodies)[k].1,
        (fields + bodies)[k].2,
    ) by {
        if k < fields.len() {
            assert((fields + bodies)[k] == fields[k]);
        } else {
            assert((fields + bodies)[k] == bodies[k - fields.len()]);
            assert(paras[k - fields.len()] == paras[k - fields.len()]);
        }
    }
}

/// The body starts inside the text.
pub proof fn lemma_frontmatter_bounds(t: Seq<char>)
    ensures
        0 <= frontmatter_spec(t).1 <= t.len(),
{
    lemma_next_nl(t, 0);
    match frontmatter_layout(t) {
        Some(layout) => {
            lemma_closing_bounds(t, line_end(t, 0));
            lemma_next_nl(t, layout.1);
        },
        None => {},
    }
}

/// A closing line lies between the search start and the end of the text.
pub proof fn lemma_closing_bounds(t: Seq<char>, s: int)
    ensures
        closing_from(t, s) matches Some(c) ==> s <= c <= t.len(),
    decreases t.len() - s,
{
    if 0 <= s <= t.len() && !is_delimiter(t.subrange(s, line_end(t, s))) && next_nl(t, s)
        < t.len() {
        lemma_next_nl(t, s);
        lemma_closing_bounds(t, next_nl(t, s) + 1);
    }
}

/// Frontmatter field passages are never of the body kind.
pub proof fn lemma_fields_not_body(t: Seq<char>)
    ensures
        forall|k: int|
            0 <= k < frontmatter_spec(t).0.len() ==> (#[trigger] frontmatter_spec(t).0[k]).0
                != PassageKind::Body,
{
}

/// Malformed frontmatter yields body passages only.
pub proof fn lemma_malformed_is_body_only(t: Seq<char>)
    ensures
        located_passages(t).1 == Some(FrontmatterIssue::Malformed) ==> forall|k: int|
            0 <= k < located_passages(t).0.len() ==> (#[trigger] located_passages(t).0[k]).0
                == PassageKind::Body,
{
    let (fields, body, issue) = frontmatter_spec(t);
    if issue == Some(FrontmatterIssue::Malformed) {
        assert(fields.len() == 0);
        let bodies = paragraphs_from(t, body, None).map_values(
            |p: (Seq<char>, int)| (PassageKind::Body, p.0, p.1),
        );
        assert(fields + bodies =~= bodies);
    }
}
/// An ASCII letter or digit.
pub open spec fn is_alnum(c: char) -> bool {
    let u = c as u32;
    (0x30 <= u <= 0x39) || (0x41 <= u <= 0x5A) || (0x61 <= u <= 0x7A)
}

/// A non-empty run of ASCII letters and digits.
pub open spec fn is_word(w: Seq<char>) -> bool {
    w.len() > 0 && forall|k: int| 0 <= k < w.len() ==> is_alnum(#[trigger] w[k])
}

/// Lines joined by newlines.
pub open spec fn join_lines(lines: Seq<Seq<char>>) -> Seq<char>
    decreases lines.len(),
{
    if lines.len() == 0 {
        Seq::empty()
    } else if lines.len() == 1 {
        lines[0]
    } else {
        lines[0] + seq!['\n'] + join_lines(lines.drop_first())
    }
}

/// Paragraphs, each given by its lines, separated by one blank line.
pub open spec fn join_paragraphs(ps: Seq<Seq<Seq<char>>>) -> Seq<char>
    decreases ps.len(),
{
    if ps.len() == 0 {
        Seq::empty()
    } else if ps.len() == 1 {
        join_lines(ps[0])
    } else {
        join_lines(ps[0]) + seq!['\n', '\n'] + join_paragraphs(ps.drop_first())
    }
}

/// A paragraph of one or more word lines.
pub open spec fn word_paragraph(lines: Seq<Seq<char>>) -> bool {
    lines.len() > 0 && forall|k: int| 0 <= k < lines.len() ==> is_word(#[trigger] lines[k])
}

/// Letters and digits are neither whitespace, newlines nor dashes.
proof fn lemma_alnum_plain(c: char)
    requires
        is_alnum(c),
    ensures
        !is_ws(c),
        c != '\n',
        c != '-',
{
}

/// The newline search from `i` stops at `e` when no newline lies in between
/// and `e` is the end or a newline.
proof fn lemma_next_nl_at(t: Seq<char>, i: int, e: int)
    requires
        0 <= i <= e <= t.len(),
        forall|k: int| i <= k < e ==> #[trigger] t[k] != '\n',
        e == t.len() || t[e] == '\n',
    ensures
        next_nl(t, i) == e,
    decreases e - i,
{
    if i < e {
        lemma_next_nl_at(t, i + 1, e);
    }
}

/// The line of a word: it ends where the word ends, is not blank, and has no
/// leading whitespace.
proof fn lemma_word_line(t: Seq<char>, i: int, w: Seq<char>)
    requires
        is_word(w),
        0 <= i,
        i + w.len() <= t.len(),
        t.subrange(i, i + w.len()) == w,
        i + w.len() == t.len() || t[i + w.len()] == '\n',
    ensures
        next_nl(t, i) == i + w.len(),
        !all_ws(t.subrange(i, i + w.len())),
        leading_ws(t.subrange(i, i + w.len())) == 0,
{
    assert forall|k: int| i <= k < i + w.len() implies #[trigger] t[k] != '\n' by {
        assert(t[k] == w[k - i]);
        lemma_alnum_plain(w[k - i]);
    }
    lemma_next_nl_at(t, i, i + w.len());
    lemma_alnum_plain(w[0]);
    assert(t.subrange(i, i + w.len())[0] == w[0]);
    crate::text::lemma_leading_ws(t.subrange(i, i + w.len()), 0);
}

/// A stretch holding a character that is not whitespace closes into exactly
/// one paragraph.
proof fn lemma_paragraph_at_one(t: Seq<char>, o: int, end: int, k: int)
    requires
        0 <= o <= k < end <= t.len(),
        !is_ws(t[k]),
    ensures
        paragraph_at(t, o, end).len() == 1,
{
    let raw = t.subrange(o, end);
    lemma_trim_empty(raw);
    assert(raw[k - o] == t[k]);
}
/// Reading the lines of a word paragraph from line start `i` keeps a
/// paragraph open at `o` (where it opened, or `i`) and closes nothing: after
/// the last line the reading goes on at the next line start, or the end of
/// the text closes the paragraph.
proof fn lemma_read_paragraph(t: Seq<char>, i: int, lines: Seq<Seq<char>>, open: Option<int>)
    requires
        word_paragraph(lines),
        0 <= i,
        i + join_lines(lines).len() <= t.len(),
        t.subrange(i, i + join_lines(lines).len()) == join_lines(lines),
        i + join_lines(lines).len() == t.len() || t[i + join_lines(lines).len()] == '\n',
        open matches Some(o) ==> 0 <= o < i && !is_ws(t[o]),
    ensures
        ({
            let o = match open {
                Some(o) => o,
                None => i,
            };
            let end = i + join_lines(lines).len();
            &&& 0 <= o < end
            &&& !is_ws(t[o])
            &&& end == t.len() ==> paragraphs_from(t, i, open) == paragraph_at(t, o, t.len() as int)
            &&& end < t.len() ==> paragraphs_from(t, i, open) == paragraphs_from(t, end + 1, Some(o))
        }),
    decreases lines.len(),
{
    let w = lines[0];
    let jl = join_lines(lines);
    let end = i + jl.len();
    assert(is_word(w));
    if lines.len() == 1 {
        assert(jl == w);
    } else {
        let rest = lines.drop_first();
        assert(jl == w + seq!['\n'] + join_lines(rest));
        assert(t[i + w.len()] == jl[w.len() as int]);
    }
    assert(t.subrange(i, i + w.len()) =~= w) by {
        assert forall|k: int| 0 <= k < w.len() implies t.subrange(i, i + w.len())[k] == w[k] by {
            assert(t.subrange(i, i + w.len())[k] == t[i + k]);
            assert(t[i + k] == t.subrange(i, end)[k]);
            assert(jl[k] == w[k]);
        }
    }
    lemma_word_line(t, i, w);
    lemma_alnum_plain(w[0]);
    assert(t[i] == w[0]);
    let o = match open {
        Some(o) => o,
        None => i,
    };
    let e = i + w.len();
    let line = t.subrange(i, e);
    assert(paragraphs_from(t, i, open) == (if e >= t.len() {
        Seq::<(Seq<char>, int)>::empty() + paragraph_at(t, o, t.len() as int)
    } else {
        Seq::<(Seq<char>, int)>::empty() + paragraphs_from(t, e + 1, Some(o))
    }));
    if e >= t.len() {
        assert(Seq::<(Seq<char>, int)>::empty() + paragraph_at(t, o, t.len() as int) =~= paragraph_at(
            t,
            o,
            t.len() as int,
        ));
    } else {
        assert(Seq::<(Seq<char>, int)>::empty() + paragraphs_from(t, e + 1, Some(o)) =~= paragraphs_from(
            t,
            e + 1,
            Some(o),
        ));
        if lines.len() > 1 {
            let rest = lines.drop_first();
            let jr = join_lines(rest);
            assert(jl == w + seq!['\n'] + jr);
            assert(end == e + 1 + jr.len());
            assert(t.subrange(e + 1, e + 1 + jr.len()) =~= jr) by {
                assert forall|k: int| 0 <= k < jr.len() implies t.subrange(e + 1, e + 1 + jr.len())[k] == jr[k] by {
                    assert(t.subrange(e + 1, e + 1 + jr.len())[k] == t[e + 1 + k]);
                    assert(t[e + 1 + k] == t.subrange(i, end)[w.len() + 1 + k]);
                    assert(jl[w.len() + 1 + k] == jr[k]);
                }
            }
            assert forall|k: int| 0 <= k < rest.len() implies is_word(#[trigger] rest[k]) by {
                assert(rest[k] == lines[k + 1]);
            }
            lemma_read_paragraph(t, e + 1, rest, Some(o));
        }
    }
}

/// A blank line closes the open paragraph and reading goes on at the next
/// line start with none open.
proof fn lemma_read_blank_line(t: Seq<char>, j: int, o: int)
    requires
        0 <= o < j < t.len(),
        t[j] == '\n',
        !is_ws(t[o]),
    ensures
        paragraphs_from(t, j, Some(o)) == paragraph_at(t, o, j) + paragraphs_from(t, j + 1, None),
        paragraph_at(t, o, j).len() == 1,
{
    lemma_next_nl_at(t, j, j);
    assert(all_ws(t.subrange(j, j)));
    lemma_paragraph_at_one(t, o, j, o);
}

/// Reading paragraphs separated by single blank lines from line start `i`
/// finds one paragraph each.
proof fn lemma_read_paragraphs(t: Seq<char>, i: int, ps: Seq<Seq<Seq<char>>>)
    requires
        forall|k: int| 0 <= k < ps.len() ==> word_paragraph(#[trigger] ps[k]),
        0 <= i <= t.len(),
        t.subrange(i, t.len() as int) == join_paragraphs(ps),
    ensures
        paragraphs_from(t, i, None).len() == ps.len(),
    decreases ps.len(),
{
    if ps.len() == 0 {
        assert(t.len() == i);
        lemma_next_nl_at(t, i, i);
        assert(all_ws(t.subrange(i, i)));
        assert(paragraphs_from(t, i, None) =~= Seq::<(Seq<char>, int)>::empty());
    } else {
        let p0 = ps[0];
        let j0 = join_lines(p0);
        assert(word_paragraph(p0));
        if ps.len() == 1 {
            assert(join_paragraphs(ps) == j0);
            assert(t.subrange(i, i + j0.len()) =~= j0) by {
                assert forall|k: int| 0 <= k < j0.len() implies t.subrange(i, i + j0.len())[k] == j0[k] by {
                    assert(t.subrange(i, i + j0.len())[k] == t.subrange(i, t.len() as int)[k]);
                }
            }
            lemma_read_paragraph(t, i, p0, None);
            lemma_paragraph_at_one(t, i, t.len() as int, i);
        } else {
            let rest = ps.drop_first();
            let jr = join_paragraphs(rest);
            assert(join_paragraphs(ps) == j0 + seq!['\n', '\n'] + jr);
            let end = i + j0.len();
            assert(t.subrange(i, end) =~= j0) by {
                assert forall|k: int| 0 <= k < j0.len() implies t.subrange(i, end)[k] == j0[k] by {
                    assert(t.subrange(i, end)[k] == t.subrange(i, t.len() as int)[k]);
                }
            }
            assert(t[end] == t.subrange(i, t.len() as int)[j0.len() as int]);
            assert(t[end + 1] == t.subrange(i, t.len() as int)[j0.len() + 1int]);
            lemma_read_paragraph(t, i, p0, None);
            lemma_read_blank_line(t, end + 1, i);
            assert(t.subrange(end + 2, t.len() as int) =~= jr) by {
                assert forall|k: int| 0 <= k < jr.len() implies t.subrange(end + 2, t.len() as int)[k] == jr[k] by {
                    assert(t.subrange(end + 2, t.len() as int)[k] == t.subrange(i, t.len() as int)[j0.len() + 2int + k]);
                }
            }
            assert forall|k: int| 0 <= k < rest.len() implies word_paragraph(#[trigger] rest[k]) by {
                assert(rest[k] == ps[k + 1]);
            }
            lemma_read_paragraphs(t, end + 2, rest);
        }
    }
}
/// A text that is empty or starts with a letter or digit has no frontmatter.
proof fn lemma_no_frontmatter(t: Seq<char>)
    requires
        t.len() == 0 || is_alnum(t[0]),
    ensures
        frontmatter_spec(t) == (Seq::<(PassageKind, Seq<char>, int)>::empty(), 0int, None::<FrontmatterIssue>),
{
    lemma_next_nl(t, 0);
    let x = t.subrange(0, line_end(t, 0));
    if t.len() > 0 {
        lemma_alnum_plain(t[0]);
        assert(x[0] == t[0]);
        crate::text::lemma_leading_ws(x, 0);
        assert(x.skip(0) =~= x);
        assert(crate::text::trim_start(x) == x);
        crate::text::lemma_trailing_ws_props(x);
        assert(trim(x) == x.take(x.len() - crate::text::trailing_ws(x)));
        if trim(x) == seq!['-', '-', '-'] {
            assert(trim(x).len() == 3);
            assert(trim(x)[0] == x[0]);
            assert(seq!['-', '-', '-'][0] == '-');
        }
    } else {
        assert(x.len() == 0);
        assert(trim(x).len() == 0);
    }
    assert(!is_delimiter(x));
}

/// A body of paragraphs of letter-and-digit lines, separated by single
/// blank lines, segments into exactly one body passage per paragraph.
pub proof fn lemma_paragraph_count(ps: Seq<Seq<Seq<char>>>)
    requires
        forall|k: int| 0 <= k < ps.len() ==> word_paragraph(#[trigger] ps[k]),
    ensures
        segment_text(join_paragraphs(ps)).0.len() == ps.len(),
        forall|k: int|
            0 <= k < ps.len() ==> (#[trigger] segment_text(join_paragraphs(ps)).0[k]).0 == PassageKind::Body,
{
    let t = join_paragraphs(ps);
    if ps.len() > 0 {
        let p0 = ps[0];
        assert(word_paragraph(p0));
        let w0 = p0[0];
        assert(is_word(w0));
        let j0 = join_lines(p0);
        if p0.len() > 1 {
            assert(j0 == w0 + seq!['\n'] + join_lines(p0.drop_first()));
        }
        assert(j0[0] == w0[0]);
        if ps.len() > 1 {
            assert(t == j0 + seq!['\n', '\n'] + join_paragraphs(ps.drop_first()));
        }
        assert(t[0] == w0[0]);
    }
    lemma_no_frontmatter(t);
    assert(t.subrange(0, t.len() as int) =~= t);
    lemma_read_paragraphs(t, 0, ps);
    let bodies = paragraphs_from(t, 0, None).map_values(
        |p: (Seq<char>, int)| (PassageKind::Body, p.0, p.1),
    );
    assert(located_passages(t).0 =~= bodies);
}
/// Segmentation is deterministic: two segmentations of the same content hold
/// the same passages (kinds, texts and offsets).
pub proof fn lemma_segmentation_deterministic(first: Seq<Passage>, second: Seq<Passage>, content: Seq<u8>)
    requires
        passages_view(first) == segment_spec(content).0,
        passages_view(second) == segment_spec(content).0,
    ensures
        passages_view(first) == passages_view(second),
{
}
} // verus!
