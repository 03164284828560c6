//! General properties of the grammar, stated and proved against the spec
//! model that every executable parser is contracted to.

use vstd::prelude::*;

use crate::grammar::spec_iriref;
use crate::grammar::spec_literal;
use crate::grammar::spec_named_node;
use crate::grammar::spec_object;
use crate::grammar::spec_statement;
use crate::grammar::spec_subject;
use crate::lexer::is_alnum_byte;
use crate::lexer::is_ws_byte;
use crate::lexer::lemma_alnum_end_is;
use crate::lexer::lemma_find_from_is;
use crate::lexer::CARET_MARK;
use crate::lexer::CLOSE_DELIM;
use crate::lexer::COLON_MARK;
use crate::lexer::COMMENT_MARK;
use crate::lexer::LANGUAGE_MARK;
use crate::lexer::OPEN_DELIM;
use crate::lexer::QUOTE_MARK;
use crate::lexer::STATEMENT_END;
use crate::lexer::UNDERSCORE;
use crate::terms::ObjectV;
use crate::terms::ParseError;
use crate::terms::PredicateV;
use crate::terms::SubjectV;

verus! {

/// No parsed literal carries both a datatype and a language: one of the two
/// is always empty.
pub proof fn lemma_literal_suffix_exclusive(s: Seq<u8>, pos: int)
    ensures
        spec_literal(s, pos) matches Ok(p) ==> (p.0 matches ObjectV::Literal {
            value,
            datatype,
            language,
        } ==> datatype.len() == 0 || language.len() == 0),
{
}

/// No parsed object carries both a datatype and a language.
pub proof fn lemma_object_suffix_exclusive(s: Seq<u8>, pos: int)
    ensures
        spec_object(s, pos) matches Ok(p) ==> (p.0 matches ObjectV::Literal {
            value,
            datatype,
            language,
        } ==> datatype.len() == 0 || language.len() == 0),
{
    lemma_literal_suffix_exclusive(s, pos);
}

/// Parsing is deterministic: the same statement text yields the same result
/// on every parse, so parsing identical input twice gives value-equal
/// statements.
pub proof fn lemma_parse_deterministic(s1: Seq<u8>, s2: Seq<u8>, pos: int)
    requires
        s1 == s2,
    ensures
        spec_statement(s1, pos) == spec_statement(s2, pos),
{
}

/// For any byte sequence `u` free of the closing delimiter, an identifier
/// reference built as delimiter, `u`, delimiter parses to exactly `u` and
/// consumes exactly that span, whatever follows.
pub proof fn lemma_iriref_identity(u: Seq<u8>, rest: Seq<u8>)
    requires
        forall|i: int| 0 <= i < u.len() ==> u[i] != CLOSE_DELIM,
    ensures
        spec_iriref(seq![OPEN_DELIM] + u + seq![CLOSE_DELIM] + rest, 0) == Ok::<
            (Seq<u8>, int),
            ParseError,
        >((u, u.len() as int + 2)),
{
    let s = seq![OPEN_DELIM] + u + seq![CLOSE_DELIM] + rest;
    assert(s[0] == OPEN_DELIM);
    assert(s[u.len() as int + 1] == CLOSE_DELIM);
    assert forall|k: int| 1 <= k < u.len() + 1 implies s[k] != CLOSE_DELIM by {
        assert(s[k] == u[k - 1]);
    }
    lemma_find_from_is(s, 1, CLOSE_DELIM, u.len() as int + 1);
    assert(s.subrange(1, u.len() as int + 1) =~= u);
}

/// For any non-empty alphanumeric name `n`, the blank-node form built as the
/// prefix marker followed by `n` parses to exactly `n`, as a blank-node name
/// and as a subject.
pub proof fn lemma_named_node_identity(n: Seq<u8>)
    requires
        n.len() > 0,
        forall|i: int| 0 <= i < n.len() ==> is_alnum_byte(n[i]),
    ensures
        spec_named_node(seq![UNDERSCORE, COLON_MARK] + n, 0) == Ok::<(Seq<u8>, int), ParseError>(
            (n, n.len() as int + 2),
        ),
        spec_subject(seq![UNDERSCORE, COLON_MARK] + n, 0) == Ok::<(SubjectV, int), ParseError>(
            (SubjectV::NamedNode(n), n.len() as int + 2),
        ),
{
    let s = seq![UNDERSCORE, COLON_MARK] + n;
    assert(s[0] == UNDERSCORE);
    assert(s[1] == COLON_MARK);
    assert forall|k: int| 2 <= k < s.len() implies is_alnum_byte(s[k]) by {
        assert(s[k] == n[k - 2]);
    }
    lemma_alnum_end_is(s, 2, s.len() as int);
    assert(s.subrange(2, s.len() as int) =~= n);
}

/// A bare quoted value parses to a literal with that value and no datatype
/// and no language, consuming exactly the quoted span.
pub proof fn lemma_literal_plain(v: Seq<u8>)
    requires
        forall|i: int| 0 <= i < v.len() ==> v[i] != QUOTE_MARK,
    ensures
        spec_literal(seq![QUOTE_MARK] + v + seq![QUOTE_MARK], 0) == Ok::<
            (ObjectV, int),
            ParseError,
        >(
            (
                ObjectV::Literal { value: v, datatype: Seq::empty(), language: Seq::empty() },
                v.len() as int + 2,
            ),
        ),
{
    let s = seq![QUOTE_MARK] + v + seq![QUOTE_MARK];
    assert(s[0] == QUOTE_MARK);
    assert(s[v.len() as int + 1] == QUOTE_MARK);
    assert forall|k: int| 1 <= k < v.len() + 1 implies s[k] != QUOTE_MARK by {
        assert(s[k] == v[k - 1]);
    }
    lemma_find_from_is(s, 1, QUOTE_MARK, v.len() as int + 1);
    assert(s.subrange(1, v.len() as int + 1) =~= v);
}

/// A quoted value with a language tag parses to a literal with that value
/// and language and an empty datatype, consuming the whole text.
pub proof fn lemma_literal_language(v: Seq<u8>, n: Seq<u8>)
    requires
        forall|i: int| 0 <= i < v.len() ==> v[i] != QUOTE_MARK,
        n.len() > 0,
        forall|i: int| 0 <= i < n.len() ==> is_alnum_byte(n[i]),
    ensures
        spec_literal(seq![QUOTE_MARK] + v + seq![QUOTE_MARK, LANGUAGE_MARK] + n, 0) == Ok::<
            (ObjectV, int),
            ParseError,
        >(
            (
                ObjectV::Literal { value: v, datatype: Seq::empty(), language: n },
                v.len() as int + n.len() as int + 3,
            ),
        ),
{
    let s = seq![QUOTE_MARK] + v + seq![QUOTE_MARK, LANGUAGE_MARK] + n;
    assert(s[0] == QUOTE_MARK);
    assert(s[v.len() as int + 1] == QUOTE_MARK);
    assert forall|k: int| 1 <= k < v.len() + 1 implies s[k] != QUOTE_MARK by {
        assert(s[k] == v[k - 1]);
    }
    lemma_find_from_is(s, 1, QUOTE_MARK, v.len() as int + 1);
    assert(s.subrange(1, v.len() as int + 1) =~= v);
    let k: int = v.len() as int + 2;
    assert(s[k] == LANGUAGE_MARK);
    assert forall|j: int| k + 1 <= j < s.len() implies is_alnum_byte(s[j]) by {
        assert(s[j] == n[j - (k + 1)]);
    }
    lemma_alnum_end_is(s, k + 1, s.len() as int);
    assert(s.subrange(k + 1, s.len() as int) =~= n);
}

/// A quoted value with a datatype suffix parses to a literal with that value
/// and datatype and an empty language, consuming the whole text.
pub proof fn lemma_literal_datatype(v: Seq<u8>, d: Seq<u8>)
    requires
        forall|i: int| 0 <= i < v.len() ==> v[i] != QUOTE_MARK,
        forall|i: int| 0 <= i < d.len() ==> d[i] != CLOSE_DELIM,
    ensures
        spec_literal(
            seq![QUOTE_MARK] + v + seq![QUOTE_MARK, CARET_MARK, CARET_MARK, OPEN_DELIM] + d
                + seq![CLOSE_DELIM],
            0,
        ) == Ok::<(ObjectV, int), ParseError>(
            (
                ObjectV::Literal { value: v, datatype: d, language: Seq::empty() },
                v.len() as int + d.len() as int + 6,
            ),
        ),
{
    let s = seq![QUOTE_MARK] + v + seq![QUOTE_MARK, CARET_MARK, CARET_MARK, OPEN_DELIM] + d
        + seq![CLOSE_DELIM];
    assert(s[0] == QUOTE_MARK);
    assert(s[v.len() as int + 1] == QUOTE_MARK);
    assert forall|k: int| 1 <= k < v.len() + 1 implies s[k] != QUOTE_MARK by {
        assert(s[k] == v[k - 1]);
    }
    lemma_find_from_is(s, 1, QUOTE_MARK, v.len() as int + 1);
    assert(s.subrange(1, v.len() as int + 1) =~= v);
    let k: int = v.len() as int + 2;
    assert(s[k] == CARET_MARK);
    assert(s[k + 1] == CARET_MARK);
    assert(s[k + 2] == OPEN_DELIM);
    assert(s[k + 3 + d.len() as int] == CLOSE_DELIM);
    assert forall|j: int| k + 3 <= j < k + 3 + d.len() implies s[j] != CLOSE_DELIM by {
        assert(s[j] == d[j - (k + 3)]);
    }
    lemma_find_from_is(s, k + 3, CLOSE_DELIM, k + 3 + d.len() as int);
    assert(s.subrange(k + 3, k + 3 + d.len() as int) =~= d);
}

} // verus!

use crate::grammar::spec_literal_value;
use crate::grammar::spec_predicate;
use crate::grammar::spec_statement_at;
use crate::lexer::spec_skip;
use crate::terms::StatementV;

verus! {

/// The text of a subject: its identifier between delimiters, or the
/// blank-node marker followed by its name.
pub open spec fn subject_text(v: SubjectV) -> Seq<u8> {
    match v {
        SubjectV::AbsoluteUri(u) => seq![OPEN_DELIM] + u + seq![CLOSE_DELIM],
        SubjectV::NamedNode(n) => seq![UNDERSCORE, COLON_MARK] + n,
    }
}

/// The subject values the grammar can produce: an identifier free of the
/// closing delimiter, or a non-empty alphanumeric name.
pub open spec fn subject_wf(v: SubjectV) -> bool {
    match v {
        SubjectV::AbsoluteUri(u) => forall|i: int| 0 <= i < u.len() ==> u[i] != CLOSE_DELIM,
        SubjectV::NamedNode(n) => n.len() > 0 && (forall|i: int|
            0 <= i < n.len() ==> is_alnum_byte(n[i])),
    }
}

/// The text of a predicate: its identifier between delimiters.
pub open spec fn predicate_text(v: PredicateV) -> Seq<u8> {
    match v {
        PredicateV::AbsoluteUri(u) => seq![OPEN_DELIM] + u + seq![CLOSE_DELIM],
    }
}

/// The predicate values the grammar can produce.
pub open spec fn predicate_wf(v: PredicateV) -> bool {
    match v {
        PredicateV::AbsoluteUri(u) => forall|i: int| 0 <= i < u.len() ==> u[i] != CLOSE_DELIM,
    }
}

/// The text of an object: an identifier reference, a blank-node form, or a
/// quoted literal with its one optional suffix.
pub open spec fn object_text(v: ObjectV) -> Seq<u8> {
    match v {
        ObjectV::AbsoluteUri(u) => seq![OPEN_DELIM] + u + seq![CLOSE_DELIM],
        ObjectV::NamedNode(n) => seq![UNDERSCORE, COLON_MARK] + n,
        ObjectV::Literal { value, datatype, language } => if language.len() > 0 {
            seq![QUOTE_MARK] + value + seq![QUOTE_MARK, LANGUAGE_MARK] + language
        } else if datatype.len() > 0 {
            seq![QUOTE_MARK] + value + seq![QUOTE_MARK, CARET_MARK, CARET_MARK, OPEN_DELIM]
                + datatype + seq![CLOSE_DELIM]
        } else {
            seq![QUOTE_MARK] + value + seq![QUOTE_MARK]
        },
    }
}

/// The object values the grammar can produce.
pub open spec fn object_wf(v: ObjectV) -> bool {
    match v {
        ObjectV::AbsoluteUri(u) => forall|i: int| 0 <= i < u.len() ==> u[i] != CLOSE_DELIM,
        ObjectV::NamedNode(n) => n.len() > 0 && (forall|i: int|
            0 <= i < n.len() ==> is_alnum_byte(n[i])),
        ObjectV::Literal { value, datatype, language } => {
            &&& forall|i: int| 0 <= i < value.len() ==> value[i] != QUOTE_MARK
            &&& datatype.len() == 0 || language.len() == 0
            &&& forall|i: int| 0 <= i < language.len() ==> is_alnum_byte(language[i])
            &&& forall|i: int| 0 <= i < datatype.len() ==> datatype[i] != CLOSE_DELIM
        },
    }
}

/// A run of whitespace bytes only.
pub open spec fn ws_run(w: Seq<u8>) -> bool {
    forall|i: int| 0 <= i < w.len() ==> is_ws_byte(w[i])
}

/// A separator run complete in itself: whitespace bytes and comments, each
/// comment closed by a recognized line terminator inside the run. Such a run
/// stays one transparent token boundary in any surrounding text.
pub open spec fn sep_text(w: Seq<u8>) -> bool
    decreases w.len(),
{
    if w.len() == 0 {
        true
    } else if is_ws_byte(w[0]) {
        sep_text(w.skip(1))
    } else if w[0] == COMMENT_MARK {
        let e = comment_body_end(w, 1);
        if e < w.len() {
            match line_term_end(w, e) {
                Some(k) => if 0 < k && k <= w.len() {
                    sep_text(w.skip(k))
                } else {
                    false
                },
                None => false,
            }
        } else {
            false
        }
    } else {
        false
    }
}

/// Every run of whitespace bytes is a complete separator run.
pub proof fn lemma_ws_run_sep_text(w: Seq<u8>)
    requires
        ws_run(w),
    ensures
        sep_text(w),
    decreases w.len(),
{
    if w.len() > 0 {
        assert(forall|i: int| 0 <= i < w.skip(1).len() ==> w.skip(1)[i] == w[i + 1]);
        lemma_ws_run_sep_text(w.skip(1));
    }
}

/// Skipping separators over a complete separator run laid out on `[i, j)`
/// stops exactly at `j` when `j` holds neither whitespace nor a comment
/// marker.
pub proof fn lemma_skip_sep_text(s: Seq<u8>, i: int, j: int)
    requires
        0 <= i <= j <= s.len(),
        sep_text(s.subrange(i, j)),
        j == s.len() || (!is_ws_byte(s[j]) && s[j] != COMMENT_MARK),
    ensures
        spec_skip(s, i) == j,
    decreases j - i,
{
    let w = s.subrange(i, j);
    if i < j {
        assert(s[i] == w[0]);
        if is_ws_byte(s[i]) {
            assert(w.skip(1) =~= s.subrange(i + 1, j));
            lemma_skip_sep_text(s, i + 1, j);
        } else {
            let e = comment_body_end(w, 1);
            crate::lexer::lemma_comment_body_end(w, 1);
            assert(e < w.len());
            assert(line_break_at(w, e));
            assert(w[e] == LINE_FEED || w[e] == CARRIAGE_RETURN || w[e] == 226);
            assert forall|m: int| i + 1 <= m < i + e implies !line_break_at(s, m) by {
                let q = m - i;
                assert(s[m] == w[q]);
                assert(!line_break_at(w, q));
                if unicode_sep_at(s, m) {
                    if q + 1 == e {
                        assert(s[m + 1] == w[e]);
                    } else if q + 2 == e {
                        assert(s[m + 1] == w[q + 1]);
                        assert(s[m + 2] == w[e]);
                    } else {
                        assert(s[m + 1] == w[q + 1]);
                        assert(s[m + 2] == w[q + 2]);
                        assert(unicode_sep_at(w, q));
                    }
                }
            }
            assert(line_break_at(s, i + e)) by {
                assert(s[i + e] == w[e]);
                if unicode_sep_at(w, e) {
                    assert(s[i + e + 1] == w[e + 1]);
                    assert(s[i + e + 2] == w[e + 2]);
                }
            }
            lemma_comment_body_end_is(s, i + 1, i + e);
            let k = line_term_end(w, e)->Some_0;
            assert(line_term_end(s, i + e) == Some(i + k)) by {
                if e + 2 <= w.len() && w[e] == CARRIAGE_RETURN && w[e + 1] == LINE_FEED {
                    assert(s[i + e] == w[e]);
                    assert(s[i + e + 1] == w[e + 1]);
                } else if w[e] == LINE_FEED {
                    assert(s[i + e] == w[e]);
                } else {
                    assert(unicode_sep_at(w, e));
                    assert(s[i + e] == w[e]);
                    assert(s[i + e + 1] == w[e + 1]);
                    assert(s[i + e + 2] == w[e + 2]);
                    assert(unicode_sep_at(s, i + e));
                    assert(s[i + e] != CARRIAGE_RETURN && s[i + e] != LINE_FEED);
                }
            }
            assert(spec_comment(s, i) == Some(i + k));
            assert(w.skip(k) =~= s.subrange(i + k, j));
            lemma_skip_sep_text(s, i + k, j);
        }
    }
}

/// An identifier reference laid out at `pos` parses to exactly its body.
pub proof fn lemma_iriref_at(s: Seq<u8>, pos: int, u: Seq<u8>)
    requires
        0 <= pos,
        pos + u.len() + 2 <= s.len(),
        forall|i: int| 0 <= i < u.len() ==> u[i] != CLOSE_DELIM,
        s[pos] == OPEN_DELIM,
        s[pos + 1 + u.len()] == CLOSE_DELIM,
        forall|i: int| 0 <= i < u.len() ==> s[pos + 1 + i] == u[i],
    ensures
        spec_iriref(s, pos) == Ok::<(Seq<u8>, int), ParseError>((u, pos + u.len() + 2)),
{
    assert forall|k: int| pos + 1 <= k < pos + 1 + u.len() implies s[k] != CLOSE_DELIM by {
        assert(s[k] == u[k - (pos + 1)]);
    }
    lemma_find_from_is(s, pos + 1, CLOSE_DELIM, pos + 1 + u.len() as int);
    assert(s.subrange(pos + 1, pos + 1 + u.len() as int) =~= u);
}

/// A blank-node form laid out at `pos` parses to exactly its name, provided
/// the byte after it (if any) does not extend the name.
pub proof fn lemma_named_node_at(s: Seq<u8>, pos: int, n: Seq<u8>)
    requires
        0 <= pos,
        pos + n.len() + 2 <= s.len(),
        n.len() > 0,
        forall|i: int| 0 <= i < n.len() ==> is_alnum_byte(n[i]),
        s[pos] == UNDERSCORE,
        s[pos + 1] == COLON_MARK,
        forall|i: int| 0 <= i < n.len() ==> s[pos + 2 + i] == n[i],
        pos + 2 + n.len() == s.len() || !is_alnum_byte(s[pos + 2 + n.len()]),
    ensures
        spec_named_node(s, pos) == Ok::<(Seq<u8>, int), ParseError>((n, pos + n.len() + 2)),
{
    assert forall|k: int| pos + 2 <= k < pos + 2 + n.len() implies is_alnum_byte(s[k]) by {
        assert(s[k] == n[k - (pos + 2)]);
    }
    lemma_alnum_end_is(s, pos + 2, pos + 2 + n.len() as int);
    assert(s.subrange(pos + 2, pos + 2 + n.len() as int) =~= n);
}

/// A well-formed subject laid out at `pos` parses to exactly that value.
pub proof fn lemma_subject_at(s: Seq<u8>, pos: int, v: SubjectV)
    requires
        subject_wf(v),
        0 <= pos,
        pos + subject_text(v).len() <= s.len(),
        forall|i: int| 0 <= i < subject_text(v).len() ==> s[pos + i] == subject_text(v)[i],
        v is NamedNode ==> (pos + subject_text(v).len() == s.len() || !is_alnum_byte(
            s[pos + subject_text(v).len()],
        )),
    ensures
        spec_subject(s, pos) == Ok::<(SubjectV, int), ParseError>(
            (v, pos + subject_text(v).len()),
        ),
{
    let t = subject_text(v);
    match v {
        SubjectV::AbsoluteUri(u) => {
            assert(s[pos] == t[0]);
            assert(s[pos + 1 + u.len()] == t[1 + u.len() as int]);
            assert forall|i: int| 0 <= i < u.len() implies s[pos + 1 + i] == u[i] by {
                assert(s[pos + 1 + i] == t[1 + i]);
            }
            lemma_iriref_at(s, pos, u);
        },
        SubjectV::NamedNode(n) => {
            assert(s[pos] == t[0]);
            assert(s[pos + 1] == t[1]);
            assert forall|i: int| 0 <= i < n.len() implies s[pos + 2 + i] == n[i] by {
                assert(s[pos + 2 + i] == t[2 + i]);
            }
            lemma_named_node_at(s, pos, n);
        },
    }
}

/// A well-formed predicate laid out at `pos` parses to exactly that value.
pub proof fn lemma_predicate_at(s: Seq<u8>, pos: int, v: PredicateV)
    requires
        predicate_wf(v),
        0 <= pos,
        pos + predicate_text(v).len() <= s.len(),
        forall|i: int| 0 <= i < predicate_text(v).len() ==> s[pos + i] == predicate_text(v)[i],
    ensures
        spec_predicate(s, pos) == Ok::<(PredicateV, int), ParseError>(
            (v, pos + predicate_text(v).len()),
        ),
{
    let t = predicate_text(v);
    match v {
        PredicateV::AbsoluteUri(u) => {
            assert(s[pos] == t[0]);
            assert(s[pos + 1 + u.len()] == t[1 + u.len() as int]);
            assert forall|i: int| 0 <= i < u.len() implies s[pos + 1 + i] == u[i] by {
                assert(s[pos + 1 + i] == t[1 + i]);
            }
            lemma_iriref_at(s, pos, u);
        },
    }
}

/// A well-formed object laid out at `pos` parses to exactly that value,
/// provided the byte after it (if any) extends neither a name nor a suffix.
pub proof fn lemma_object_at(s: Seq<u8>, pos: int, v: ObjectV)
    requires
        object_wf(v),
        0 <= pos,
        pos + object_text(v).len() <= s.len(),
        forall|i: int| 0 <= i < object_text(v).len() ==> s[pos + i] == object_text(v)[i],
        pos + object_text(v).len() == s.len() || (!is_alnum_byte(s[pos + object_text(v).len()])
            && s[pos + object_text(v).len()] != LANGUAGE_MARK && s[pos + object_text(v).len()]
            != CARET_MARK),
    ensures
        spec_object(s, pos) == Ok::<(ObjectV, int), ParseError>((v, pos + object_text(v).len())),
{
    let t = object_text(v);
    let q = pos + t.len();
    match v {
        ObjectV::AbsoluteUri(u) => {
            assert(s[pos] == t[0]);
            assert(s[pos + 1 + u.len()] == t[1 + u.len() as int]);
            assert forall|i: int| 0 <= i < u.len() implies s[pos + 1 + i] == u[i] by {
                assert(s[pos + 1 + i] == t[1 + i]);
            }
            lemma_iriref_at(s, pos, u);
        },
        ObjectV::NamedNode(n) => {
            assert(s[pos] == t[0]);
            assert(s[pos + 1] == t[1]);
            assert forall|i: int| 0 <= i < n.len() implies s[pos + 2 + i] == n[i] by {
                assert(s[pos + 2 + i] == t[2 + i]);
            }
            lemma_named_node_at(s, pos, n);
        },
        ObjectV::Literal { value, datatype, language } => {
            let vl = value.len() as int;
            assert(s[pos] == t[0]);
            assert(s[pos + 1 + vl] == t[1 + vl]);
            assert forall|k: int| pos + 1 <= k < pos + 1 + vl implies s[k] != QUOTE_MARK by {
                assert(s[k] == t[k - pos]);
                assert(t[k - pos] == value[k - pos - 1]);
            }
            lemma_find_from_is(s, pos + 1, QUOTE_MARK, pos + 1 + vl);
            assert forall|i: int| 0 <= i < vl implies s[pos + 1 + i] == value[i] by {
                assert(s[pos + 1 + i] == t[1 + i]);
            }
            assert(s.subrange(pos + 1, pos + 1 + vl) =~= value);
            let k = pos + vl + 2;
            assert(spec_literal_value(s, pos) == Ok::<(Seq<u8>, int), ParseError>((value, k)));
            if datatype.len() == 0 {
                assert(datatype =~= Seq::<u8>::empty());
            }
            if language.len() == 0 {
                assert(language =~= Seq::<u8>::empty());
            }
            if language.len() > 0 {
                let ll = language.len() as int;
                assert(s[k] == t[vl + 2]);
                assert forall|j: int| k + 1 <= j < q implies is_alnum_byte(s[j]) by {
                    assert(s[j] == t[j - pos]);
                    assert(t[j - pos] == language[j - (k + 1)]);
                }
                lemma_alnum_end_is(s, k + 1, q);
                assert forall|i: int| 0 <= i < ll implies s[k + 1 + i] == language[i] by {
                    assert(s[k + 1 + i] == t[vl + 3 + i]);
                }
                assert(s.subrange(k + 1, q) =~= language);
            } else if datatype.len() > 0 {
                let dl = datatype.len() as int;
                assert(s[k] == t[vl + 2]);
                assert(s[k + 1] == t[vl + 3]);
                assert(s[k + 2] == t[vl + 4]);
                assert(s[k + 3 + dl] == t[vl + 5 + dl]);
                assert forall|i: int| 0 <= i < dl implies s[k + 3 + i] == datatype[i] by {
                    assert(s[k + 3 + i] == t[vl + 5 + i]);
                }
                lemma_iriref_at(s, k + 2, datatype);
            } else {
                if k < s.len() {
                    assert(s[k] != LANGUAGE_MARK && s[k] != CARET_MARK);
                }
            }
        },
    }
}

/// Assembling a statement from its already-placed parts: when the separator
/// skips and the three term parses land as given and a terminator follows,
/// the statement parses to exactly those terms.
proof fn lemma_statement_parts(
    s: Seq<u8>,
    sv: SubjectV,
    pv: PredicateV,
    ov: ObjectV,
    a0: int,
    a1: int,
    b1: int,
    a2: int,
    b2: int,
    a3: int,
    b3: int,
)
    requires
        spec_skip(s, 0) == a0,
        spec_subject(s, a0) == Ok::<(SubjectV, int), ParseError>((sv, a1)),
        spec_skip(s, a1) == b1,
        b1 != a1,
        spec_predicate(s, b1) == Ok::<(PredicateV, int), ParseError>((pv, a2)),
        spec_skip(s, a2) == b2,
        b2 != a2,
        spec_object(s, b2) == Ok::<(ObjectV, int), ParseError>((ov, a3)),
        spec_skip(s, a3) == b3,
        0 <= b3 < s.len(),
        s[b3] == STATEMENT_END,
    ensures
        spec_statement(s, 0) == Ok::<(StatementV, int), ParseError>(
            (StatementV { subject: sv, predicate: pv, object: ov }, b3 + 1),
        ),
{
}

/// Separator insensitivity: a statement parses to the same value, the one
/// its terms spell, whatever separator runs stand between its tokens —
/// single spaces, several spaces or tabs, newlines, or interleaved comments.
/// The separator runs before the predicate and before the object must be
/// non-empty; the runs at the edges may be empty.
#[verifier::rlimit(100)]
#[verifier::spinoff_prover]
pub proof fn lemma_separator_insensitive(
    sv: SubjectV,
    pv: PredicateV,
    ov: ObjectV,
    w0: Seq<u8>,
    w1: Seq<u8>,
    w2: Seq<u8>,
    w3: Seq<u8>,
)
    requires
        subject_wf(sv),
        predicate_wf(pv),
        object_wf(ov),
        sep_text(w0),
        sep_text(w1),
        sep_text(w2),
        sep_text(w3),
        w1.len() > 0,
        w2.len() > 0,
    ensures
        ({
            let s = w0 + subject_text(sv) + w1 + predicate_text(pv) + w2 + object_text(ov) + w3
                + seq![STATEMENT_END];
            spec_statement(s, 0) == Ok::<(StatementV, int), ParseError>(
                (StatementV { subject: sv, predicate: pv, object: ov }, s.len() as int),
            )
        }),
{
    let ts = subject_text(sv);
    let tp = predicate_text(pv);
    let to = object_text(ov);
    let s1 = w0 + ts;
    let s2 = s1 + w1;
    let s3 = s2 + tp;
    let s4 = s3 + w2;
    let s5 = s4 + to;
    let s6 = s5 + w3;
    let s = s6 + seq![STATEMENT_END];
    let a0 = w0.len() as int;
    let a1 = a0 + ts.len() as int;
    let b1 = a1 + w1.len() as int;
    let a2 = b1 + tp.len() as int;
    let b2 = a2 + w2.len() as int;
    let a3 = b2 + to.len() as int;
    let b3 = a3 + w3.len() as int;
    assert(s.len() == b3 + 1);
    assert forall|i: int| 0 <= i < a0 implies s[i] == w0[i] by {
        assert(s[i] == s6[i]);
        assert(s6[i] == s5[i]);
        assert(s5[i] == s4[i]);
        assert(s4[i] == s3[i]);
        assert(s3[i] == s2[i]);
        assert(s2[i] == s1[i]);
        assert(s1[i] == w0[i]);
    }
    assert forall|i: int| 0 <= i < ts.len() implies s[a0 + i] == ts[i] by {
        assert(s[a0 + i] == s6[a0 + i]);
        assert(s6[a0 + i] == s5[a0 + i]);
        assert(s5[a0 + i] == s4[a0 + i]);
        assert(s4[a0 + i] == s3[a0 + i]);
        assert(s3[a0 + i] == s2[a0 + i]);
        assert(s2[a0 + i] == s1[a0 + i]);
        assert(s1[a0 + i] == ts[i]);
    }
    assert forall|i: int| 0 <= i < w1.len() implies s[a1 + i] == w1[i] by {
        assert(s[a1 + i] == s6[a1 + i]);
        assert(s6[a1 + i] == s5[a1 + i]);
        assert(s5[a1 + i] == s4[a1 + i]);
        assert(s4[a1 + i] == s3[a1 + i]);
        assert(s3[a1 + i] == s2[a1 + i]);
        assert(s2[a1 + i] == w1[i]);
    }
    assert forall|i: int| 0 <= i < tp.len() implies s[b1 + i] == tp[i] by {
        assert(s[b1 + i] == s6[b1 + i]);
        assert(s6[b1 + i] == s5[b1 + i]);
        assert(s5[b1 + i] == s4[b1 + i]);
        assert(s4[b1 + i] == s3[b1 + i]);
        assert(s3[b1 + i] == tp[i]);
    }
    assert forall|i: int| 0 <= i < w2.len() implies s[a2 + i] == w2[i] by {
        assert(s[a2 + i] == s6[a2 + i]);
        assert(s6[a2 + i] == s5[a2 + i]);
        assert(s5[a2 + i] == s4[a2 + i]);
        assert(s4[a2 + i] == w2[i]);
    }
    assert forall|i: int| 0 <= i < to.len() implies s[b2 + i] == to[i] by {
        assert(s[b2 + i] == s6[b2 + i]);
        assert(s6[b2 + i] == s5[b2 + i]);
        assert(s5[b2 + i] == to[i]);
    }
    assert forall|i: int| 0 <= i < w3.len() implies s[a3 + i] == w3[i] by {
        assert(s[a3 + i] == s6[a3 + i]);
        assert(s6[a3 + i] == w3[i]);
    }
    assert(s[b3] == STATEMENT_END);
    let st0 = match sv {
        SubjectV::AbsoluteUri(u) => OPEN_DELIM,
        SubjectV::NamedNode(n) => UNDERSCORE,
    };
    assert(ts.len() > 0 && ts[0] == st0);
    assert(s[a0] == st0);
    assert(s.subrange(0, a0) =~= w0);
    lemma_skip_sep_text(s, 0, a0);
    if w1.len() > 0 {
        assert(s[a1] == w1[0]);
        assert(is_ws_byte(w1[0]) || w1[0] == COMMENT_MARK);
    }
    lemma_subject_at(s, a0, sv);
    let pt0 = match pv {
        PredicateV::AbsoluteUri(u) => OPEN_DELIM,
    };
    assert(tp.len() > 0 && tp[0] == pt0);
    assert(s[b1] == pt0);
    assert(s.subrange(a1, b1) =~= w1);
    lemma_skip_sep_text(s, a1, b1);
    lemma_predicate_at(s, b1, pv);
    let ot0 = match ov {
        ObjectV::AbsoluteUri(u) => OPEN_DELIM,
        ObjectV::NamedNode(n) => UNDERSCORE,
        ObjectV::Literal { value, datatype, language } => QUOTE_MARK,
    };
    assert(to.len() > 0 && to[0] == ot0);
    assert(s[b2] == ot0);
    assert(s.subrange(a2, b2) =~= w2);
    lemma_skip_sep_text(s, a2, b2);
    if w3.len() > 0 {
        assert(s[a3] == w3[0]);
        assert(is_ws_byte(w3[0]) || w3[0] == COMMENT_MARK);
    } else {
        assert(s[a3] == STATEMENT_END);
    }
    lemma_object_at(s, b2, ov);
    assert(s.subrange(a3, b3) =~= w3);
    lemma_skip_sep_text(s, a3, b3);
    lemma_statement_parts(s, sv, pv, ov, a0, a1, b1, a2, b2, a3, b3);
}

} // verus!

use crate::grammar::lemma_literal_value_bounds;
use crate::grammar::lemma_object_bounds;
use crate::grammar::lemma_predicate_bounds;
use crate::grammar::lemma_subject_bounds;
use crate::lexer::alnum_end;
use crate::lexer::comment_body_end;
use crate::lexer::find_from;
use crate::lexer::lemma_comment_body_end_is;
use crate::lexer::lemma_comment_bounds;
use crate::lexer::lemma_skip_bounds;
use crate::lexer::line_break_at;
use crate::lexer::line_term_end;
use crate::lexer::spec_comment;
use crate::lexer::unicode_sep_at;
use crate::lexer::CARRIAGE_RETURN;
use crate::lexer::LINE_FEED;

verus! {

/// Scanning for a byte is translation invariant: a prefix shifts the result
/// by its length.
pub proof fn lemma_find_from_shift(a: Seq<u8>, s: Seq<u8>, i: int, b: u8)
    requires
        0 <= i <= s.len(),
    ensures
        find_from(a + s, a.len() + i, b) == a.len() + find_from(s, i, b),
    decreases s.len() - i,
{
    if i < s.len() {
        assert((a + s)[a.len() + i] == s[i]);
        if s[i] != b {
            lemma_find_from_shift(a, s, i + 1, b);
        }
    }
}

/// Scanning an alphanumeric run is translation invariant.
pub proof fn lemma_alnum_end_shift(a: Seq<u8>, s: Seq<u8>, i: int)
    requires
        0 <= i <= s.len(),
    ensures
        alnum_end(a + s, a.len() + i) == a.len() + alnum_end(s, i),
    decreases s.len() - i,
{
    if i < s.len() {
        assert((a + s)[a.len() + i] == s[i]);
        if is_alnum_byte(s[i]) {
            lemma_alnum_end_shift(a, s, i + 1);
        }
    }
}

/// Recognizing a line-terminating character is translation invariant.
pub proof fn lemma_line_break_shift(a: Seq<u8>, s: Seq<u8>, i: int)
    requires
        0 <= i,
    ensures
        line_break_at(a + s, a.len() + i) == line_break_at(s, i),
{
    if i < s.len() {
        assert((a + s)[a.len() + i] == s[i]);
    }
    if i + 1 < s.len() {
        assert((a + s)[a.len() + i + 1] == s[i + 1]);
    }
    if i + 2 < s.len() {
        assert((a + s)[a.len() + i + 2] == s[i + 2]);
    }
}

/// Scanning a comment body is translation invariant.
pub proof fn lemma_comment_body_end_shift(a: Seq<u8>, s: Seq<u8>, i: int)
    requires
        0 <= i <= s.len(),
    ensures
        comment_body_end(a + s, a.len() + i) == a.len() + comment_body_end(s, i),
    decreases s.len() - i,
{
    if i < s.len() {
        lemma_line_break_shift(a, s, i);
        if !line_break_at(s, i) {
            lemma_comment_body_end_shift(a, s, i + 1);
        }
    }
}

/// Recognizing a line terminator is translation invariant.
pub proof fn lemma_line_term_end_shift(a: Seq<u8>, s: Seq<u8>, i: int)
    requires
        0 <= i,
    ensures
        line_term_end(a + s, a.len() + i) == (match line_term_end(s, i) {
            Some(k) => Some(a.len() + k),
            None => None,
        }),
{
    if i < s.len() {
        assert((a + s)[a.len() + i] == s[i]);
    }
    if i + 1 < s.len() {
        assert((a + s)[a.len() + i + 1] == s[i + 1]);
    }
    if i + 2 < s.len() {
        assert((a + s)[a.len() + i + 2] == s[i + 2]);
    }
}

/// Recognizing a comment is translation invariant.
pub proof fn lemma_comment_shift(a: Seq<u8>, s: Seq<u8>, i: int)
    requires
        0 <= i <= s.len(),
    ensures
        spec_comment(a + s, a.len() + i) == (match spec_comment(s, i) {
            Some(k) => Some(a.len() + k),
            None => None,
        }),
{
    if i < s.len() {
        assert((a + s)[a.len() + i] == s[i]);
        if s[i] == COMMENT_MARK {
            lemma_comment_body_end_shift(a, s, i + 1);
            let e = comment_body_end(s, i + 1);
            crate::lexer::lemma_comment_body_end(s, i + 1);
            if e < s.len() {
                lemma_line_term_end_shift(a, s, e);
            }
        }
    }
}

/// Skipping separators is translation invariant.
pub proof fn lemma_skip_shift(a: Seq<u8>, s: Seq<u8>, i: int)
    requires
        0 <= i <= s.len(),
    ensures
        spec_skip(a + s, a.len() + i) == a.len() + spec_skip(s, i),
    decreases s.len() - i,
{
    if i < s.len() {
        assert((a + s)[a.len() + i] == s[i]);
        if is_ws_byte(s[i]) {
            lemma_skip_shift(a, s, i + 1);
        } else if s[i] == COMMENT_MARK {
            lemma_comment_shift(a, s, i);
            lemma_comment_bounds(s, i);
            if let Some(k) = spec_comment(s, i) {
                lemma_skip_shift(a, s, k);
            }
        }
    }
}

/// A matched identifier reference is translation invariant: behind a prefix
/// it yields the same body, with the stop position shifted.
pub proof fn lemma_iriref_shift(a: Seq<u8>, s: Seq<u8>, i: int)
    requires
        0 <= i <= s.len(),
        spec_iriref(s, i) is Ok,
    ensures
        spec_iriref(a + s, a.len() + i) == (match spec_iriref(s, i) {
            Ok(p) => Ok::<(Seq<u8>, int), ParseError>((p.0, a.len() + p.1)),
            Err(e) => Err::<(Seq<u8>, int), ParseError>(e),
        }),
{
    assert((a + s)[a.len() + i] == s[i]);
    lemma_find_from_shift(a, s, i + 1, CLOSE_DELIM);
    let j = find_from(s, i + 1, CLOSE_DELIM);
    crate::lexer::lemma_find_from(s, i + 1, CLOSE_DELIM);
    assert((a + s).subrange(a.len() + i + 1, a.len() + j) =~= s.subrange(i + 1, j));
}

/// A matched blank-node name is translation invariant.
pub proof fn lemma_named_node_shift(a: Seq<u8>, s: Seq<u8>, i: int)
    requires
        0 <= i <= s.len(),
        spec_named_node(s, i) is Ok,
    ensures
        spec_named_node(a + s, a.len() + i) == (match spec_named_node(s, i) {
            Ok(p) => Ok::<(Seq<u8>, int), ParseError>((p.0, a.len() + p.1)),
            Err(e) => Err::<(Seq<u8>, int), ParseError>(e),
        }),
{
    assert((a + s)[a.len() + i] == s[i]);
    assert((a + s)[a.len() + i + 1] == s[i + 1]);
    lemma_alnum_end_shift(a, s, i + 2);
    let e = alnum_end(s, i + 2);
    crate::lexer::lemma_alnum_end(s, i + 2);
    assert((a + s).subrange(a.len() + i + 2, a.len() + e) =~= s.subrange(i + 2, e));
}

/// A matched subject is translation invariant.
pub proof fn lemma_subject_shift(a: Seq<u8>, s: Seq<u8>, i: int)
    requires
        0 <= i <= s.len(),
        spec_subject(s, i) is Ok,
    ensures
        spec_subject(a + s, a.len() + i) == (match spec_subject(s, i) {
            Ok(p) => Ok::<(SubjectV, int), ParseError>((p.0, a.len() + p.1)),
            Err(e) => Err::<(SubjectV, int), ParseError>(e),
        }),
{
    assert((a + s)[a.len() + i] == s[i]);
    if s[i] == OPEN_DELIM {
        lemma_iriref_shift(a, s, i);
    } else {
        lemma_named_node_shift(a, s, i);
    }
}

/// A matched predicate is translation invariant.
pub proof fn lemma_predicate_shift(a: Seq<u8>, s: Seq<u8>, i: int)
    requires
        0 <= i <= s.len(),
        spec_predicate(s, i) is Ok,
    ensures
        spec_predicate(a + s, a.len() + i) == (match spec_predicate(s, i) {
            Ok(p) => Ok::<(PredicateV, int), ParseError>((p.0, a.len() + p.1)),
            Err(e) => Err::<(PredicateV, int), ParseError>(e),
        }),
{
    assert((a + s)[a.len() + i] == s[i]);
    lemma_iriref_shift(a, s, i);
}

/// A matched quoted value is translation invariant.
pub proof fn lemma_literal_value_shift(a: Seq<u8>, s: Seq<u8>, i: int)
    requires
        0 <= i <= s.len(),
        spec_literal_value(s, i) is Ok,
    ensures
        spec_literal_value(a + s, a.len() + i) == (match spec_literal_value(s, i) {
            Ok(p) => Ok::<(Seq<u8>, int), ParseError>((p.0, a.len() + p.1)),
            Err(e) => Err::<(Seq<u8>, int), ParseError>(e),
        }),
{
    assert((a + s)[a.len() + i] == s[i]);
    lemma_find_from_shift(a, s, i + 1, QUOTE_MARK);
    let j = find_from(s, i + 1, QUOTE_MARK);
    crate::lexer::lemma_find_from(s, i + 1, QUOTE_MARK);
    assert((a + s).subrange(a.len() + i + 1, a.len() + j) =~= s.subrange(i + 1, j));
}

/// A matched literal is translation invariant.
pub proof fn lemma_literal_shift(a: Seq<u8>, s: Seq<u8>, i: int)
    requires
        0 <= i <= s.len(),
        spec_literal(s, i) is Ok,
    ensures
        spec_literal(a + s, a.len() + i) == (match spec_literal(s, i) {
            Ok(p) => Ok::<(ObjectV, int), ParseError>((p.0, a.len() + p.1)),
            Err(e) => Err::<(ObjectV, int), ParseError>(e),
        }),
{
    lemma_literal_value_shift(a, s, i);
    lemma_literal_value_bounds(s, i);
    if let Ok(vp) = spec_literal_value(s, i) {
        let k = vp.1;
        if k < s.len() {
            assert((a + s)[a.len() + k] == s[k]);
            lemma_alnum_end_shift(a, s, k + 1);
            crate::lexer::lemma_alnum_end(s, k + 1);
        }
        if k + 1 < s.len() {
            assert((a + s)[a.len() + k + 1] == s[k + 1]);
        }
        if k < s.len() && s[k] == LANGUAGE_MARK && alnum_end(s, k + 1) > k + 1 {
            let e = alnum_end(s, k + 1);
            if e < s.len() {
                assert((a + s)[a.len() + e] == s[e]);
            }
            if e + 1 < s.len() {
                assert((a + s)[a.len() + e + 1] == s[e + 1]);
            }
            assert((a + s).subrange(a.len() + k + 1, a.len() + e) =~= s.subrange(k + 1, e));
        } else if k + 2 <= s.len() && s[k] == CARET_MARK && s[k + 1] == CARET_MARK {
            lemma_iriref_shift(a, s, k + 2);
            crate::grammar::lemma_iriref_bounds(s, k + 2);
            if let Ok(dp) = spec_iriref(s, k + 2) {
                if dp.1 < s.len() {
                    assert((a + s)[a.len() + dp.1] == s[dp.1]);
                }
            }
        }
    }
}

/// A matched object is translation invariant.
pub proof fn lemma_object_shift(a: Seq<u8>, s: Seq<u8>, i: int)
    requires
        0 <= i <= s.len(),
        spec_object(s, i) is Ok,
    ensures
        spec_object(a + s, a.len() + i) == (match spec_object(s, i) {
            Ok(p) => Ok::<(ObjectV, int), ParseError>((p.0, a.len() + p.1)),
            Err(e) => Err::<(ObjectV, int), ParseError>(e),
        }),
{
    assert((a + s)[a.len() + i] == s[i]);
    if s[i] == OPEN_DELIM {
        lemma_iriref_shift(a, s, i);
    } else if s[i] == UNDERSCORE {
        lemma_named_node_shift(a, s, i);
    } else {
        lemma_literal_shift(a, s, i);
    }
}

/// A matched statement is translation invariant: behind a prefix it yields
/// the same statement value, with the stop position shifted.
pub proof fn lemma_statement_shift(a: Seq<u8>, s: Seq<u8>, pos: int)
    requires
        0 <= pos <= s.len(),
        spec_statement(s, pos) is Ok,
    ensures
        spec_statement(a + s, a.len() + pos) == (match spec_statement(s, pos) {
            Ok(p) => Ok::<(StatementV, int), ParseError>((p.0, a.len() + p.1)),
            Err(e) => Err::<(StatementV, int), ParseError>(e),
        }),
{
    lemma_skip_shift(a, s, pos);
    lemma_skip_bounds(s, pos);
    let p0 = spec_skip(s, pos);
    lemma_subject_bounds(s, p0);
    lemma_subject_shift(a, s, p0);
    if let Ok(sp) = spec_subject(s, p0) {
        let p1 = sp.1;
        lemma_skip_shift(a, s, p1);
        lemma_skip_bounds(s, p1);
        let p2 = spec_skip(s, p1);
        if p2 != p1 {
            lemma_predicate_bounds(s, p2);
            lemma_predicate_shift(a, s, p2);
            if let Ok(pp) = spec_predicate(s, p2) {
                let p3 = pp.1;
                lemma_skip_shift(a, s, p3);
                lemma_skip_bounds(s, p3);
                let p4 = spec_skip(s, p3);
                if p4 != p3 {
                    lemma_object_bounds(s, p4);
                    lemma_object_shift(a, s, p4);
                    if let Ok(op) = spec_object(s, p4) {
                        let p5 = op.1;
                        lemma_skip_shift(a, s, p5);
                        lemma_skip_bounds(s, p5);
                        let p6 = spec_skip(s, p5);
                        if p6 < s.len() {
                            assert((a + s)[a.len() + p6] == s[p6]);
                        }
                    }
                }
            }
        }
    }
}

/// Comment transparency: a leading comment line followed by a valid
/// statement parses to exactly the statement alone, with the stop position
/// moved past the comment.
pub proof fn lemma_comment_transparent(c: Seq<u8>, s: Seq<u8>)
    requires
        forall|i: int| 0 <= i < c.len() ==> !line_break_at(c, i),
        spec_statement(s, 0) is Ok,
    ensures
        spec_statement(seq![COMMENT_MARK] + c + seq![LINE_FEED] + s, 0) == (
        match spec_statement(s, 0) {
            Ok(p) => Ok::<(StatementV, int), ParseError>((p.0, c.len() + 2 + p.1)),
            Err(e) => Err::<(StatementV, int), ParseError>(e),
        }),
{
    let pre = seq![COMMENT_MARK] + c + seq![LINE_FEED];
    let t = pre + s;
    let cl = c.len() as int;
    let m = cl + 2;
    assert(t[0] == COMMENT_MARK);
    assert(t[cl + 1] == LINE_FEED);
    assert forall|j: int| 1 <= j < cl + 1 implies !line_break_at(t, j) by {
        assert(t[j] == c[j - 1]);
        assert(!line_break_at(c, j - 1));
        if unicode_sep_at(t, j) {
            if j + 3 <= cl + 1 {
                assert(t[j + 1] == c[j]);
                assert(t[j + 2] == c[j + 1]);
                assert(unicode_sep_at(c, j - 1));
            } else if j + 2 == cl + 1 {
                assert(t[j + 1] == c[j]);
                assert(t[j + 2] == LINE_FEED);
            } else {
                assert(t[j + 1] == LINE_FEED);
            }
        }
    }
    assert(line_break_at(t, cl + 1));
    lemma_comment_body_end_is(t, 1, cl + 1);
    assert(line_term_end(t, cl + 1) == Some(m)) by {
        assert(t[cl + 1] == LINE_FEED && LINE_FEED != CARRIAGE_RETURN);
    }
    assert(spec_comment(t, 0) == Some(m));
    assert(spec_skip(t, 0) == spec_skip(t, m));
    lemma_skip_shift(pre, s, 0);
    lemma_statement_shift(pre, s, 0);
    assert(spec_statement(t, 0) == spec_statement_at(t, spec_skip(t, 0)));
    assert(spec_statement(t, m) == spec_statement_at(t, spec_skip(t, m)));
}

} // verus!
