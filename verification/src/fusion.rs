//! Passage identities shared by the search legs, and the mapping of free
//! text onto an FTS5 match expression.
use vstd::prelude::*;
use crate::file_id::FileId;
use crate::passage::PassageKind;
use crate::text::{chars_of, is_whitespace, is_ws, push_char};

verus! {

/// The stable logical identity of a passage used as the fusion key.
///
/// `(file, kind, position)` identifies a passage independently of the
/// physical FTS5 rowid, so lexical and semantic candidates for the same
/// passage map to the same key.
#[derive(Clone, Copy, Debug, PartialEq, Eq, Structural, Hash, PartialOrd, Ord)]
pub struct PassageKey {
    file: FileId,
    kind: PassageKind,
    position: usize,
}

impl View for PassageKey {
    type V = (u64, PassageKind, usize);

    closed spec fn view(&self) -> (u64, PassageKind, usize) {
        (self.file@, self.kind, self.position)
    }
}

impl PassageKey {
    /// Creates a passage key from its logical identity components.
    pub fn new(file: FileId, kind: PassageKind, position: usize) -> (k: PassageKey)
        ensures
            k@ == (file@, kind, position),
    {
        PassageKey { file, kind, position }
    }

    /// Returns the owning file's ID.
    pub fn file(self) -> (f: FileId)
        ensures
            f@ == self@.0,
    {
        self.file
    }

    /// Returns the passage kind.
    pub fn kind(self) -> (k: PassageKind)
        ensures
            k == self@.1,
    {
        self.kind
    }

    /// Returns the passage's position within its file.
    pub fn position(self) -> (p: usize)
        ensures
            p == self@.2,
    {
        self.position
    }
}

/// The number of leading characters of `s` that are not whitespace.
pub open spec fn word_len(s: Seq<char>) -> nat
    decreases s.len(),
{
    if s.len() > 0 && !is_ws(s[0]) {
        1 + word_len(s.drop_first())
    } else {
        0
    }
}

/// The whitespace-separated terms of `s`, in order (`str::split_whitespace`).
pub open spec fn words(s: Seq<char>) -> Seq<Seq<char>>
    decreases s.len(),
{
    if s.len() == 0 {
        Seq::empty()
    } else if is_ws(s[0]) {
        words(s.drop_first())
    } else {
        let k = word_len(s);
        proof {
            lemma_word_len_bound(s);
        }
        seq![s.take(k as int)] + words(s.skip(k as int))
    }
}

/// A word is no longer than the text it starts.
pub proof fn lemma_word_len_bound(s: Seq<char>)
    ensures
        word_len(s) <= s.len(),
    decreases s.len(),
{
    if s.len() > 0 && !is_ws(s[0]) {
        lemma_word_len_bound(s.drop_first());
    }
}

/// `w` with every double quote doubled.
pub open spec fn escape_quotes(w: Seq<char>) -> Seq<char>
    decreases w.len(),
{
    if w.len() == 0 {
        Seq::empty()
    } else {
        escape_quotes(w.drop_last()) + if w.last() == '"' {
            seq!['"', '"']
        } else {
            seq![w.last()]
        }
    }
}

/// A term as an FTS5 string literal: quoted, inner quotes doubled.
pub open spec fn quoted(w: Seq<char>) -> Seq<char> {
    seq!['"'] + escape_quotes(w) + seq!['"']
}

/// The quoted terms joined with ` AND `.
pub open spec fn and_joined(ws: Seq<Seq<char>>) -> Seq<char>
    decreases ws.len(),
{
    if ws.len() == 0 {
        Seq::empty()
    } else if ws.len() == 1 {
        quoted(ws[0])
    } else {
        and_joined(ws.drop_last()) + " AND "@ + quoted(ws.last())
    }
}

/// The FTS5 match expression of a free-text query, if it has any term.
pub open spec fn fts5_query(query: Seq<char>) -> Option<Seq<char>> {
    if words(query).len() == 0 {
        None
    } else {
        Some(and_joined(words(query)))
    }
}

/// The word length is the index of the first whitespace character.
proof fn lemma_word_len(s: Seq<char>, k: int)
    requires
        0 <= k <= s.len(),
        forall|i: int| 0 <= i < k ==> !is_ws(#[trigger] s[i]),
        k == s.len() || is_ws(s[k]),
    ensures
        word_len(s) == k,
    decreases k,
{
    if k > 0 {
        let t = s.drop_first();
        assert forall|i: int| 0 <= i < k - 1 implies !is_ws(#[trigger] t[i]) by {
            assert(t[i] == s[i + 1]);
        }
        if k - 1 < t.len() {
            assert(t[k - 1] == s[k]);
        }
        lemma_word_len(t, k - 1);
    }
}

/// Appends `w` with its double quotes doubled.
fn push_escaped(out: &mut String, w: &[char], lo: usize, hi: usize)
    requires
        lo <= hi <= w@.len(),
    ensures
        final(out)@ == old(out)@ + escape_quotes(w@.subrange(lo as int, hi as int)),
{
    let ghost start = out@;
    let mut i: usize = lo;
    assert(w@.subrange(lo as int, lo as int) =~= Seq::<char>::empty());
    while i < hi
        invariant
            lo <= i <= hi <= w@.len(),
            out@ == start + escape_quotes(w@.subrange(lo as int, i as int)),
        decreases hi - i,
    {
        let c = w[i];
        proof {
            let t = w@.subrange(lo as int, i + 1);
            assert(t.drop_last() =~= w@.subrange(lo as int, i as int));
            assert(t.last() == c);
        }
        push_char(out, c);
        if c == '"' {
            push_char(out, '"');
        }
        proof {
            let t = w@.subrange(lo as int, i + 1);
            assert(out@ =~= start + escape_quotes(t));
        }
        i = i + 1;
    }
}

/// Quotes a single FTS5 term, escaping embedded double quotes by doubling.
pub fn quote_term(term: &str) -> (q: String)
    ensures
        q@ == quoted(term@),
{
    let cs = chars_of(term);
    let mut out = String::new();
    push_char(&mut out, '"');
    push_escaped(&mut out, cs.as_slice(), 0, cs.len());
    push_char(&mut out, '"');
    assert(cs@.subrange(0, cs@.len() as int) =~= term@);
    assert(out@ =~= quoted(term@));
    out
}

/// Maps free-text query terms to an FTS5 `AND`-joined quoted-term match.
///
/// Each whitespace-separated term is wrapped in double quotes so FTS5
/// operator characters (`AND`, `OR`, `NOT`, quotes, `prefix*`) are treated as
/// literal text, and the terms are joined with ` AND ` so every term must
/// match. A term containing a double quote has it escaped by doubling.
///
/// Returns `None` when the query contains no terms.
pub fn free_text_to_fts5(query: &str) -> (r: Option<String>)
    ensures
        match r {
            Some(s) => fts5_query(query@) == Some(s@),
            None => fts5_query(query@) is None,
        },
{
    let cs = chars_of(query);
    let n = cs.len();
    let mut out = String::new();
    let mut count: usize = 0;
    let mut i: usize = 0;
    let ghost mut done: Seq<Seq<char>> = Seq::empty();
    assert(cs@.skip(0) =~= cs@);
    while i < n
        invariant
            0 <= i <= n,
            n == cs@.len(),
            cs@ == query@,
            words(cs@) == done + words(cs@.skip(i as int)),
            out@ == and_joined(done),
            count == done.len(),
            count <= i,
        decreases n - i,
    {
        let ghost rest = cs@.skip(i as int);
        if is_whitespace(cs[i]) {
            assert(rest.drop_first() =~= cs@.skip(i + 1));
            i = i + 1;
        } else {
            let start = i;
            while i < n && !is_whitespace(cs[i])
                invariant
                    start <= i <= n,
                    n == cs@.len(),
                    forall|k: int| start <= k < i ==> !is_ws(#[trigger] cs@[k]),
                decreases n - i,
            {
                i = i + 1;
            }
            proof {
                let k = i - start;
                assert forall|j: int| 0 <= j < k implies !is_ws(#[trigger] rest[j]) by {
                    assert(rest[j] == cs@[start + j]);
                }
                if i < n {
                    assert(rest[k] == cs@[i as int]);
                }
                lemma_word_len(rest, k);
                assert(rest.take(k) =~= cs@.subrange(start as int, i as int));
                assert(rest.skip(k) =~= cs@.skip(i as int));
            }
            let ghost w = cs@.subrange(start as int, i as int);
            if count > 0 {
                proof {
                    reveal_strlit(" AND ");
                }
                out.append(" AND ");
            }
            push_char(&mut out, '"');
            push_escaped(&mut out, cs.as_slice(), start, i);
            push_char(&mut out, '"');
            proof {
                let nd = done.push(w);
                assert(nd.drop_last() =~= done);
                assert(out@ =~= and_joined(nd));
                assert(words(cs@) =~= nd + words(cs@.skip(i as int)));
                done = nd;
            }
            count = count + 1;
        }
    }
    assert(cs@.skip(n as int) =~= Seq::<char>::empty());
    assert(done + Seq::<Seq<char>>::empty() =~= done);
    if count == 0 {
        None
    } else {
        Some(out)
    }
}


/// Each term of a query is non-empty and holds no whitespace, and a query has
/// no term exactly when it is blank, so the FTS5 expression is `None` exactly
/// for blank queries.
pub proof fn lemma_words_shape(s: Seq<char>)
    ensures
        forall|j: int|
            0 <= j < words(s).len() ==> (#[trigger] words(s)[j]).len() > 0 && forall|i: int|
                0 <= i < words(s)[j].len() ==> !is_ws(#[trigger] words(s)[j][i]),
        (words(s).len() == 0) == (forall|i: int| 0 <= i < s.len() ==> is_ws(#[trigger] s[i])),
        (fts5_query(s) is None) == (forall|i: int| 0 <= i < s.len() ==> is_ws(#[trigger] s[i])),
    decreases s.len(),
{
    if s.len() > 0 {
        if is_ws(s[0]) {
            let t = s.drop_first();
            lemma_words_shape(t);
            assert forall|i: int| 0 <= i < t.len() && (forall|i: int| 0 <= i < t.len() ==> is_ws(#[trigger] t[i])) implies is_ws(#[trigger] s[i + 1]) by {
                assert(t[i] == s[i + 1]);
            }
            if forall|i: int| 0 <= i < s.len() ==> is_ws(#[trigger] s[i]) {
                assert forall|i: int| 0 <= i < t.len() implies is_ws(#[trigger] t[i]) by {
                    assert(t[i] == s[i + 1]);
                }
            }
            if forall|i: int| 0 <= i < t.len() ==> is_ws(#[trigger] t[i]) {
                assert forall|i: int| 0 <= i < s.len() implies is_ws(#[trigger] s[i]) by {
                    if i > 0 {
                        assert(s[i] == t[i - 1]);
                    }
                }
            }
        } else {
            let k = word_len(s);
            lemma_word_len_bound(s);
            lemma_word_len_props(s);
            let rest = s.skip(k as int);
            lemma_words_shape(rest);
            let w = s.take(k as int);
            assert forall|j: int| 0 <= j < words(s).len() implies (#[trigger] words(s)[j]).len() > 0
                && forall|i: int| 0 <= i < words(s)[j].len() ==> !is_ws(#[trigger] words(s)[j][i]) by {
                if j == 0 {
                    assert(words(s)[0] == w);
                    assert forall|i: int| 0 <= i < w.len() implies !is_ws(#[trigger] w[i]) by {
                        assert(w[i] == s[i]);
                    }
                } else {
                    assert(words(s)[j] == words(rest)[j - 1]);
                }
            }
        }
    }
}

/// The first `word_len(s)` characters are not whitespace.
proof fn lemma_word_len_props(s: Seq<char>)
    ensures
        forall|i: int| 0 <= i < word_len(s) ==> !is_ws(#[trigger] s[i]),
    decreases s.len(),
{
    if s.len() > 0 && !is_ws(s[0]) {
        let t = s.drop_first();
        lemma_word_len_props(t);
        lemma_word_len_bound(t);
        assert forall|i: int| 0 <= i < word_len(s) implies !is_ws(#[trigger] s[i]) by {
            if i > 0 {
                assert(s[i] == t[i - 1]);
            }
        }
    }
}

} // verus!
