//! The tokens of text: what blanks and comments leave of them, and the
//! tokens of the OBJ text that the text compositor writes.
use vstd::prelude::*;
use crate::lexer::{
    comment_end, has_token, line_end, lemma_token_bounds, token_end, token_start, tokenize, tokens_from,
    whitespace_end, word_end,
};
use crate::text::{
    decimal_text, is_delimiter_char, is_digit_char, is_newline_char, is_whitespace_char, lemma_decimal_text,
};
use crate::obj::{NormalVertexModel, TextureVertexModel, VertexModel};
use crate::object::{Element, ObjectModel, VTNIndex};
use crate::compose::{
    count_text, element_lines, element_text, entry_group_names, instructions, interval_block, interval_blocks,
    names_text, normal_vertex_line, normal_vertex_lines, object_name_text, run_nameable, run_statements, runs_of,
    smoothing_text, statement_text, statements_text, text_composable, text_object, text_objects,
    texture_vertex_line, texture_vertex_lines, vertex_line, vertex_lines, vtn_text, GroupingModel,
};

verus! {

/// A word token: nonempty, with no delimiter.
pub open spec fn is_word(t: Seq<char>) -> bool {
    t.len() > 0 && forall|i: int| 0 <= i < t.len() ==> !is_delimiter_char(#[trigger] t[i])
}

proof fn lemma_whitespace_end_shift(a: Seq<char>, b: Seq<char>, q: int)
    requires
        0 <= q <= b.len(),
    ensures
        whitespace_end(a + b, a.len() + q) == a.len() + whitespace_end(b, q),
    decreases b.len() - q,
{
    if q < b.len() {
        assert((a + b)[a.len() + q] == b[q]);
        if is_whitespace_char(b[q]) {
            lemma_whitespace_end_shift(a, b, q + 1);
        }
    }
}

proof fn lemma_line_end_shift(a: Seq<char>, b: Seq<char>, q: int)
    requires
        0 <= q <= b.len(),
    ensures
        line_end(a + b, a.len() + q) == a.len() + line_end(b, q),
    decreases b.len() - q,
{
    if q < b.len() {
        assert((a + b)[a.len() + q] == b[q]);
        if !is_newline_char(b[q]) {
            lemma_line_end_shift(a, b, q + 1);
        }
    }
}

proof fn lemma_word_end_shift(a: Seq<char>, b: Seq<char>, q: int)
    requires
        0 <= q <= b.len(),
    ensures
        word_end(a + b, a.len() + q) == a.len() + word_end(b, q),
    decreases b.len() - q,
{
    if q < b.len() {
        assert((a + b)[a.len() + q] == b[q]);
        if !is_delimiter_char(b[q]) {
            lemma_word_end_shift(a, b, q + 1);
        }
    }
}

proof fn lemma_token_shift(a: Seq<char>, b: Seq<char>, q: int)
    requires
        0 <= q <= b.len(),
    ensures
        token_start(a + b, a.len() + q) == a.len() + token_start(b, q),
        token_end(a + b, a.len() + q) == a.len() + token_end(b, q),
        has_token(a + b, a.len() + q) == has_token(b, q),
{
    let s = a + b;
    lemma_whitespace_end_shift(a, b, q);
    crate::lexer::lemma_whitespace_end(b, q);
    let w = whitespace_end(b, q);
    if w < b.len() {
        assert(s[a.len() + w] == b[w]);
        if b[w] == '#' {
            lemma_line_end_shift(a, b, w);
        }
    }
    let t = token_start(b, q);
    lemma_token_bounds(b, q);
    if t < b.len() {
        assert(s[a.len() + t] == b[t]);
    }
    lemma_word_end_shift(a, b, t);
}

/// The tokens of the text after a prefix are those of the rest on its own.
pub proof fn lemma_tokens_shift(a: Seq<char>, b: Seq<char>, q: int)
    requires
        0 <= q <= b.len(),
    ensures
        tokens_from(a + b, a.len() + q) == tokens_from(b, q),
    decreases b.len() - q,
{
    let s = a + b;
    lemma_token_shift(a, b, q);
    lemma_token_bounds(b, q);
    if has_token(b, q) {
        let te = token_end(b, q);
        lemma_tokens_shift(a, b, te);
        assert(s.subrange(a.len() + token_start(b, q), a.len() + te) =~= b.subrange(token_start(b, q), te));
    }
}

/// A whitespace character before the next token changes no token.
proof fn lemma_tokens_ws(s: Seq<char>, p: int)
    requires
        0 <= p < s.len(),
        is_whitespace_char(s[p]),
    ensures
        tokens_from(s, p) == tokens_from(s, p + 1),
{
    assert(whitespace_end(s, p) == whitespace_end(s, p + 1));
    lemma_token_bounds(s, p);
    lemma_token_bounds(s, p + 1);
}

/// A newline character is a token of its own.
proof fn lemma_tokens_nl(s: Seq<char>, p: int)
    requires
        0 <= p < s.len(),
        is_newline_char(s[p]),
    ensures
        tokens_from(s, p) == seq![seq![s[p]]] + tokens_from(s, p + 1),
{
    assert(!is_whitespace_char(s[p]));
    assert(whitespace_end(s, p) == p);
    assert(comment_end(s, p) == p);
    lemma_token_bounds(s, p);
    assert(s.subrange(p, p + 1) =~= seq![s[p]]);
}

/// A comment is no token: from `#` up to the end of its line.
proof fn lemma_tokens_comment(s: Seq<char>, p: int)
    requires
        0 <= p < s.len(),
        s[p] == '#',
    ensures
        tokens_from(s, p) == tokens_from(s, line_end(s, p)),
{
    assert(whitespace_end(s, p) == p);
    crate::lexer::lemma_line_end(s, p);
    let e = line_end(s, p);
    if e < s.len() {
        assert(!is_whitespace_char(s[e]));
        assert(whitespace_end(s, e) == e);
    }
    assert(comment_end(s, e) == e);
    lemma_token_bounds(s, p);
    lemma_token_bounds(s, e);
}

proof fn lemma_line_end_skip(s: Seq<char>, p: int, q: int)
    requires
        0 <= p <= q <= s.len(),
        forall|m: int| p <= m < q ==> !is_newline_char(#[trigger] s[m]),
    ensures
        line_end(s, p) == line_end(s, q),
    decreases q - p,
{
    if p < q {
        lemma_line_end_skip(s, p + 1, q);
    }
}

proof fn lemma_word_end_skip(s: Seq<char>, p: int, q: int)
    requires
        0 <= p <= q <= s.len(),
        forall|m: int| p <= m < q ==> !is_delimiter_char(#[trigger] s[m]),
    ensures
        word_end(s, p) == word_end(s, q),
    decreases q - p,
{
    if p < q {
        lemma_word_end_skip(s, p + 1, q);
    }
}

/// A word token ahead of a delimiter or the end of the text.
pub proof fn lemma_peel_word(w: Seq<char>, rest: Seq<char>)
    requires
        is_word(w),
        rest.len() > 0 ==> is_delimiter_char(rest[0]),
    ensures
        tokenize(w + rest) == seq![w] + tokenize(rest),
{
    let s = w + rest;
    assert(s[0] == w[0]);
    assert(!is_whitespace_char(s[0]) && s[0] != '#');
    assert(whitespace_end(s, 0) == 0);
    assert(comment_end(s, 0) == 0);
    assert forall|m: int| 0 <= m < w.len() implies !is_delimiter_char(#[trigger] s[m]) by {
        assert(s[m] == w[m]);
    }
    lemma_word_end_skip(s, 0, w.len() as int);
    if rest.len() > 0 {
        assert(s[w.len() as int] == rest[0]);
    }
    assert(word_end(s, w.len() as int) == w.len());
    lemma_token_bounds(s, 0);
    assert(s.subrange(0, w.len() as int) =~= w);
    lemma_tokens_shift(w, rest, 0);
    assert(w + rest == s);
}

/// Whitespace ahead of the rest changes no token.
pub proof fn lemma_peel_ws(sep: Seq<char>, rest: Seq<char>)
    requires
        forall|i: int| 0 <= i < sep.len() ==> is_whitespace_char(#[trigger] sep[i]),
    ensures
        tokenize(sep + rest) == tokenize(rest),
    decreases sep.len(),
{
    let s = sep + rest;
    if sep.len() > 0 {
        assert(s[0] == sep[0]);
        lemma_tokens_ws(s, 0);
        let sep2 = sep.drop_first();
        lemma_peel_ws(sep2, rest);
        assert(s =~= seq![sep[0]] + (sep2 + rest));
        lemma_tokens_shift(seq![sep[0]], sep2 + rest, 0);
    } else {
        assert(s =~= rest);
    }
}

/// A newline ahead of the rest is a token of its own.
pub proof fn lemma_peel_nl(rest: Seq<char>)
    ensures
        tokenize(seq!['\n'] + rest) == seq![seq!['\n']] + tokenize(rest),
{
    let s = seq!['\n'] + rest;
    assert(s[0] == '\n');
    lemma_tokens_nl(s, 0);
    lemma_tokens_shift(seq!['\n'], rest, 0);
}

/// A comment ahead of a newline is no token.
pub proof fn lemma_peel_comment(c: Seq<char>, rest: Seq<char>)
    requires
        c.len() > 0,
        c[0] == '#',
        forall|i: int| 0 <= i < c.len() ==> !is_newline_char(#[trigger] c[i]),
        rest.len() > 0 ==> is_newline_char(rest[0]),
    ensures
        tokenize(c + rest) == tokenize(rest),
{
    let s = c + rest;
    assert(s[0] == '#');
    lemma_tokens_comment(s, 0);
    assert forall|m: int| 0 <= m < c.len() implies !is_newline_char(#[trigger] s[m]) by {
        assert(s[m] == c[m]);
    }
    lemma_line_end_skip(s, 0, c.len() as int);
    if rest.len() > 0 {
        assert(s[c.len() as int] == rest[0]);
    }
    assert(line_end(s, c.len() as int) == c.len());
    lemma_tokens_shift(c, rest, 0);
}

/// The tokens of a `v` statement as the text compositor writes it.
pub open spec fn vertex_tokens(v: VertexModel, unit_w: bool) -> Seq<Seq<char>> {
    if unit_w {
        seq!["v"@, v.x, v.y, v.z, "\n"@]
    } else {
        seq!["v"@, v.x, v.y, v.z, v.w, "\n"@]
    }
}

/// The tokens of the `v` statements of a vertex set.
pub open spec fn vertex_lines_tokens(vs: Seq<VertexModel>, unit_w: Seq<bool>) -> Seq<Seq<char>>
    decreases vs.len(),
{
    if vs.len() == 0 {
        Seq::empty()
    } else {
        vertex_lines_tokens(vs.drop_last(), unit_w) + vertex_tokens(vs.last(), unit_w[vs.len() - 1])
    }
}

/// The tokens of a `vt` statement.
pub open spec fn texture_vertex_tokens(v: TextureVertexModel) -> Seq<Seq<char>> {
    seq!["vt"@, v.u, v.v, v.w, "\n"@]
}

/// The tokens of the `vt` statements of a texture vertex set.
pub open spec fn texture_vertex_lines_tokens(vs: Seq<TextureVertexModel>) -> Seq<Seq<char>>
    decreases vs.len(),
{
    if vs.len() == 0 {
        Seq::empty()
    } else {
        texture_vertex_lines_tokens(vs.drop_last()) + texture_vertex_tokens(vs.last())
    }
}

/// The tokens of a `vn` statement.
pub open spec fn normal_vertex_tokens(v: NormalVertexModel) -> Seq<Seq<char>> {
    seq!["vn"@, v.i, v.j, v.k, "\n"@]
}

/// The tokens of the `vn` statements of a normal set.
pub open spec fn normal_vertex_lines_tokens(vs: Seq<NormalVertexModel>) -> Seq<Seq<char>>
    decreases vs.len(),
{
    if vs.len() == 0 {
        Seq::empty()
    } else {
        normal_vertex_lines_tokens(vs.drop_last()) + normal_vertex_tokens(vs.last())
    }
}

/// A comment line with a count, then an empty line: two line feeds.
pub open spec fn count_tokens() -> Seq<Seq<char>> {
    seq!["\n"@, "\n"@]
}

/// The tokens of a `g` or `s` statement.
pub open spec fn statement_tokens(st: GroupingModel) -> Seq<Seq<char>> {
    match st {
        GroupingModel::G(names) => seq!["g"@] + names + seq!["\n"@],
        GroupingModel::S(n) => seq!["s"@, decimal_text(n as nat), "\n"@],
    }
}

/// The tokens of a run's `g` and `s` statements.
pub open spec fn statements_tokens(sts: Seq<GroupingModel>) -> Seq<Seq<char>>
    decreases sts.len(),
{
    if sts.len() == 0 {
        Seq::empty()
    } else {
        statements_tokens(sts.drop_last()) + statement_tokens(sts.last())
    }
}

/// The tokens of an element statement.
pub open spec fn element_tokens(e: Element) -> Seq<Seq<char>> {
    match e {
        Element::Point(a) => seq!["p"@, vtn_text(a), "\n"@],
        Element::Line(a, b) => seq!["l"@, vtn_text(a), vtn_text(b), "\n"@],
        Element::Face(a, b, c) => seq!["f"@, vtn_text(a), vtn_text(b), vtn_text(c), "\n"@],
    }
}

/// The tokens of the `n` element statements from position `start` on.
pub open spec fn element_lines_tokens(es: Seq<Element>, start: nat, n: nat) -> Seq<Seq<char>>
    decreases n,
{
    if n == 0 {
        Seq::empty()
    } else {
        element_lines_tokens(es, start, (n - 1) as nat) + element_tokens(es[start + n - 1])
    }
}

/// The tokens of a run: its statements, its elements, and its count line.
pub open spec fn block_tokens(o: ObjectModel, iv: (usize, usize), sts: Seq<GroupingModel>) -> Seq<Seq<char>> {
    statements_tokens(sts) + element_lines_tokens(o.element_set, iv.0 as nat, (iv.1 - iv.0) as nat)
        + count_tokens()
}

/// The tokens of the runs of an object.
pub open spec fn blocks_tokens(o: ObjectModel, ins: Seq<((usize, usize), Seq<GroupingModel>)>) -> Seq<
    Seq<char>,
>
    decreases ins.len(),
{
    if ins.len() == 0 {
        Seq::empty()
    } else {
        blocks_tokens(o, ins.drop_last()) + block_tokens(o, ins.last().0, ins.last().1)
    }
}

/// The tokens of an object's text after its `o` statement.
pub open spec fn body_tokens(o: ObjectModel, unit_w: Seq<bool>) -> Seq<Seq<char>> {
    vertex_lines_tokens(o.vertex_set, unit_w) + count_tokens() + texture_vertex_lines_tokens(
        o.texture_vertex_set,
    ) + count_tokens() + normal_vertex_lines_tokens(o.normal_vertex_set) + count_tokens() + blocks_tokens(
        o,
        instructions(o),
    )
}

/// The tokens of an object's text, with its begin and end comment lines.
pub open spec fn object_chunk(o: ObjectModel, unit_w: Seq<bool>) -> Seq<Seq<char>> {
    seq!["\n"@, "o"@, o.name, "\n"@] + body_tokens(o, unit_w) + seq!["\n"@, "\n"@]
}

/// The tokens of the texts of the objects from position `i` on.
pub open spec fn chunks_from(os: Seq<ObjectModel>, unit_w: Seq<Seq<bool>>, i: nat) -> Seq<Seq<char>>
    decreases os.len() - i,
{
    if i >= os.len() {
        Seq::empty()
    } else {
        object_chunk(os[i as int], unit_w[i as int]) + chunks_from(os, unit_w, i + 1)
    }
}

/// Two words run together are one word.
proof fn lemma_word_concat(a: Seq<char>, b: Seq<char>)
    requires
        is_word(a),
        is_word(b),
    ensures
        is_word(a + b),
{
    assert forall|i: int| 0 <= i < (a + b).len() implies !is_delimiter_char(#[trigger] (a + b)[i]) by {
        if i < a.len() {
            assert((a + b)[i] == a[i]);
        } else {
            assert((a + b)[i] == b[i - a.len()]);
        }
    }
}

proof fn lemma_numeral_word(n: nat)
    ensures
        is_word(decimal_text(n)),
{
    lemma_decimal_text(n);
    let t = decimal_text(n);
    assert forall|i: int| 0 <= i < t.len() implies !is_delimiter_char(#[trigger] t[i]) by {
        assert(is_digit_char(t[i]));
    }
}

/// The text of an index is one word.
pub proof fn lemma_index_word(i: VTNIndex)
    ensures
        is_word(vtn_text(i)),
{
    reveal_strlit("/");
    reveal_strlit("//");
    assert(is_word("/"@));
    assert(is_word("//"@));
    match i {
        VTNIndex::V(v) => {
            lemma_numeral_word(v as nat);
        },
        VTNIndex::VT(v, t) => {
            lemma_numeral_word(v as nat);
            lemma_numeral_word(t as nat);
            lemma_word_concat(decimal_text(v as nat), "/"@);
            lemma_word_concat(decimal_text(v as nat) + "/"@, decimal_text(t as nat));
        },
        VTNIndex::VN(v, n) => {
            lemma_numeral_word(v as nat);
            lemma_numeral_word(n as nat);
            lemma_word_concat(decimal_text(v as nat), "//"@);
            lemma_word_concat(decimal_text(v as nat) + "//"@, decimal_text(n as nat));
        },
        VTNIndex::VTN(v, t, n) => {
            lemma_numeral_word(v as nat);
            lemma_numeral_word(t as nat);
            lemma_numeral_word(n as nat);
            lemma_word_concat(decimal_text(v as nat), "/"@);
            lemma_word_concat(decimal_text(v as nat) + "/"@, decimal_text(t as nat));
            lemma_word_concat(decimal_text(v as nat) + "/"@ + decimal_text(t as nat), "/"@);
            lemma_word_concat(decimal_text(v as nat) + "/"@ + decimal_text(t as nat) + "/"@, decimal_text(n as nat));
        },
    }
}

/// The tags the compositor writes are words.
proof fn lemma_tag_words()
    ensures
        is_word("v"@),
        is_word("vt"@),
        is_word("vn"@),
        is_word("g"@),
        is_word("s"@),
        is_word("p"@),
        is_word("l"@),
        is_word("f"@),
        is_word("o"@),
{
    reveal_strlit("v");
    reveal_strlit("vt");
    reveal_strlit("vn");
    reveal_strlit("g");
    reveal_strlit("s");
    reveal_strlit("p");
    reveal_strlit("l");
    reveal_strlit("f");
    reveal_strlit("o");
}

/// Whitespace, then a word, then a delimiter or the end.
proof fn lemma_peel_sep_word(sep: Seq<char>, w: Seq<char>, rest: Seq<char>)
    requires
        forall|i: int| 0 <= i < sep.len() ==> is_whitespace_char(#[trigger] sep[i]),
        is_word(w),
        rest.len() > 0 ==> is_delimiter_char(rest[0]),
    ensures
        tokenize(sep + (w + rest)) == seq![w] + tokenize(rest),
{
    lemma_peel_ws(sep, w + rest);
    lemma_peel_word(w, rest);
}

/// Whitespace, then the end of the line.
proof fn lemma_peel_line_end(sep: Seq<char>, rest: Seq<char>)
    requires
        forall|i: int| 0 <= i < sep.len() ==> is_whitespace_char(#[trigger] sep[i]),
    ensures
        tokenize(sep + ("\n"@ + rest)) == seq!["\n"@] + tokenize(rest),
{
    reveal_strlit("\n");
    assert("\n"@ =~= seq!['\n']);
    lemma_peel_ws(sep, "\n"@ + rest);
    lemma_peel_nl(rest);
}

/// A comment line, then an empty line.
proof fn lemma_peel_comment_lines(c: Seq<char>, rest: Seq<char>)
    requires
        c.len() > 0,
        c[0] == '#',
        forall|i: int| 0 <= i < c.len() ==> !is_newline_char(#[trigger] c[i]),
    ensures
        tokenize(c + ("\n"@ + ("\n"@ + rest))) == seq!["\n"@, "\n"@] + tokenize(rest),
{
    reveal_strlit("\n");
    assert("\n"@ =~= seq!['\n']);
    assert(is_newline_char(("\n"@ + ("\n"@ + rest))[0]));
    lemma_peel_comment(c, "\n"@ + ("\n"@ + rest));
    lemma_peel_nl("\n"@ + rest);
    lemma_peel_nl(rest);
    assert(seq!["\n"@] + (seq!["\n"@] + tokenize(rest)) =~= seq!["\n"@, "\n"@] + tokenize(rest));
}

proof fn lemma_tokens_vertex_unit(v: VertexModel, rest: Seq<char>)
    requires
        is_word(v.x),
        is_word(v.y),
        is_word(v.z),
    ensures
        tokenize(vertex_line(v, true) + rest) == vertex_tokens(v, true) + tokenize(rest),
{
    reveal_strlit(" ");
    reveal_strlit("  ");
    reveal_strlit(" \n");
    reveal_strlit("\n");
    reveal_strlit("v");
    reveal_strlit("v  ");
    lemma_tag_words();
    assert(vertex_line(v, true) + rest =~= "v"@ + ("  "@ + (v.x + ("  "@ + (v.y + ("  "@ + (v.z + (" "@ + ("\n"@ + rest)))))))));
    lemma_peel_line_end(" "@, rest);
    lemma_peel_sep_word("  "@, v.z, (" "@ + ("\n"@ + rest)));
    lemma_peel_sep_word("  "@, v.y, ("  "@ + (v.z + (" "@ + ("\n"@ + rest)))));
    lemma_peel_sep_word("  "@, v.x, ("  "@ + (v.y + ("  "@ + (v.z + (" "@ + ("\n"@ + rest)))))));
    lemma_peel_word("v"@, ("  "@ + (v.x + ("  "@ + (v.y + ("  "@ + (v.z + (" "@ + ("\n"@ + rest)))))))));
    assert(tokenize(vertex_line(v, true) + rest) =~= vertex_tokens(v, true) + tokenize(rest));
}

proof fn lemma_tokens_vertex_weighted(v: VertexModel, rest: Seq<char>)
    requires
        is_word(v.x),
        is_word(v.y),
        is_word(v.z),
        is_word(v.w),
    ensures
        tokenize(vertex_line(v, false) + rest) == vertex_tokens(v, false) + tokenize(rest),
{
    reveal_strlit(" ");
    reveal_strlit("  ");
    reveal_strlit(" \n");
    reveal_strlit("\n");
    reveal_strlit("v");
    reveal_strlit("v  ");
    lemma_tag_words();
    assert(vertex_line(v, false) + rest =~= "v"@ + ("  "@ + (v.x + ("  "@ + (v.y + ("  "@ + (v.z + ("  "@ + (v.w + (" "@ + ("\n"@ + rest)))))))))));
    lemma_peel_line_end(" "@, rest);
    lemma_peel_sep_word("  "@, v.w, (" "@ + ("\n"@ + rest)));
    lemma_peel_sep_word("  "@, v.z, ("  "@ + (v.w + (" "@ + ("\n"@ + rest)))));
    lemma_peel_sep_word("  "@, v.y, ("  "@ + (v.z + ("  "@ + (v.w + (" "@ + ("\n"@ + rest)))))));
    lemma_peel_sep_word("  "@, v.x, ("  "@ + (v.y + ("  "@ + (v.z + ("  "@ + (v.w + (" "@ + ("\n"@ + rest)))))))));
    lemma_peel_word("v"@, ("  "@ + (v.x + ("  "@ + (v.y + ("  "@ + (v.z + ("  "@ + (v.w + (" "@ + ("\n"@ + rest)))))))))));
    assert(tokenize(vertex_line(v, false) + rest) =~= vertex_tokens(v, false) + tokenize(rest));
}

proof fn lemma_tokens_texture_vertex(v: TextureVertexModel, rest: Seq<char>)
    requires
        is_word(v.u),
        is_word(v.v),
        is_word(v.w),
    ensures
        tokenize(texture_vertex_line(v) + rest) == texture_vertex_tokens(v) + tokenize(rest),
{
    reveal_strlit(" ");
    reveal_strlit("  ");
    reveal_strlit(" \n");
    reveal_strlit("\n");
    reveal_strlit("vt");
    reveal_strlit("vt  ");
    lemma_tag_words();
    assert(texture_vertex_line(v) + rest =~= "vt"@ + ("  "@ + (v.u + ("  "@ + (v.v + ("  "@ + (v.w + (" "@ + ("\n"@ + rest)))))))));
    lemma_peel_line_end(" "@, rest);
    lemma_peel_sep_word("  "@, v.w, (" "@ + ("\n"@ + rest)));
    lemma_peel_sep_word("  "@, v.v, ("  "@ + (v.w + (" "@ + ("\n"@ + rest)))));
    lemma_peel_sep_word("  "@, v.u, ("  "@ + (v.v + ("  "@ + (v.w + (" "@ + ("\n"@ + rest)))))));
    lemma_peel_word("vt"@, ("  "@ + (v.u + ("  "@ + (v.v + ("  "@ + (v.w + (" "@ + ("\n"@ + rest)))))))));
    assert(tokenize(texture_vertex_line(v) + rest) =~= texture_vertex_tokens(v) + tokenize(rest));
}

proof fn lemma_tokens_normal_vertex(v: NormalVertexModel, rest: Seq<char>)
    requires
        is_word(v.i),
        is_word(v.j),
        is_word(v.k),
    ensures
        tokenize(normal_vertex_line(v) + rest) == normal_vertex_tokens(v) + tokenize(rest),
{
    reveal_strlit(" ");
    reveal_strlit("  ");
    reveal_strlit(" \n");
    reveal_strlit("\n");
    reveal_strlit("vn");
    reveal_strlit("vn  ");
    lemma_tag_words();
    assert(normal_vertex_line(v) + rest =~= "vn"@ + ("  "@ + (v.i + ("  "@ + (v.j + ("  "@ + (v.k + (" "@ + ("\n"@ + rest)))))))));
    lemma_peel_line_end(" "@, rest);
    lemma_peel_sep_word("  "@, v.k, (" "@ + ("\n"@ + rest)));
    lemma_peel_sep_word("  "@, v.j, ("  "@ + (v.k + (" "@ + ("\n"@ + rest)))));
    lemma_peel_sep_word("  "@, v.i, ("  "@ + (v.j + ("  "@ + (v.k + (" "@ + ("\n"@ + rest)))))));
    lemma_peel_word("vn"@, ("  "@ + (v.i + ("  "@ + (v.j + ("  "@ + (v.k + (" "@ + ("\n"@ + rest)))))))));
    assert(tokenize(normal_vertex_line(v) + rest) =~= normal_vertex_tokens(v) + tokenize(rest));
}

proof fn lemma_tokens_smoothing(n: u32, rest: Seq<char>)
    ensures
        tokenize(smoothing_text(n) + rest) == statement_tokens(GroupingModel::S(n)) + tokenize(rest),
{
    reveal_strlit(" ");
    reveal_strlit("  ");
    reveal_strlit(" \n");
    reveal_strlit("\n");
    reveal_strlit("s");
    reveal_strlit("s  ");
    lemma_tag_words();
    lemma_numeral_word(n as nat);
    assert(smoothing_text(n) + rest =~= "s"@ + ("  "@ + (decimal_text(n as nat) + (" "@ + ("\n"@ + rest)))));
    lemma_peel_line_end(" "@, rest);
    lemma_peel_sep_word("  "@, decimal_text(n as nat), (" "@ + ("\n"@ + rest)));
    lemma_peel_word("s"@, ("  "@ + (decimal_text(n as nat) + (" "@ + ("\n"@ + rest)))));
    assert(tokenize(smoothing_text(n) + rest) =~= statement_tokens(GroupingModel::S(n)) + tokenize(rest));
}

proof fn lemma_tokens_object_name(name: Seq<char>, rest: Seq<char>)
    requires
        is_word(name),
    ensures
        tokenize(object_name_text(name) + rest) == seq!["o"@, name, "\n"@] + tokenize(rest),
{
    reveal_strlit(" ");
    reveal_strlit("  ");
    reveal_strlit(" \n");
    reveal_strlit("\n");
    reveal_strlit("o");
    reveal_strlit("o  ");
    lemma_tag_words();
    assert(object_name_text(name) + rest =~= "o"@ + ("  "@ + (name + (" "@ + ("\n"@ + rest)))));
    lemma_peel_line_end(" "@, rest);
    lemma_peel_sep_word("  "@, name, (" "@ + ("\n"@ + rest)));
    lemma_peel_word("o"@, ("  "@ + (name + (" "@ + ("\n"@ + rest)))));
    assert(tokenize(object_name_text(name) + rest) =~= seq!["o"@, name, "\n"@] + tokenize(rest));
}

proof fn lemma_tokens_point(a: VTNIndex, rest: Seq<char>)
    ensures
        tokenize((element_text(Element::Point(a)) + "\n"@) + rest) == element_tokens(Element::Point(a)) + tokenize(rest),
{
    reveal_strlit("  ");
    reveal_strlit("\n");
    reveal_strlit("p");
    reveal_strlit("p  ");
    lemma_tag_words();
    lemma_index_word(a);
    assert((element_text(Element::Point(a)) + "\n"@) + rest =~= "p"@ + ("  "@ + (vtn_text(a) + ("\n"@ + rest))));
    lemma_peel_line_end(Seq::<char>::empty(), rest);
    assert(Seq::<char>::empty() + ("\n"@ + rest) =~= "\n"@ + rest);
    lemma_peel_sep_word("  "@, vtn_text(a), ("\n"@ + rest));
    lemma_peel_word("p"@, ("  "@ + (vtn_text(a) + ("\n"@ + rest))));
    assert(tokenize((element_text(Element::Point(a)) + "\n"@) + rest) =~= element_tokens(Element::Point(a)) + tokenize(rest));
}

proof fn lemma_tokens_line(a: VTNIndex, b: VTNIndex, rest: Seq<char>)
    ensures
        tokenize((element_text(Element::Line(a, b)) + "\n"@) + rest) == element_tokens(Element::Line(a, b)) + tokenize(rest),
{
    reveal_strlit("  ");
    reveal_strlit("\n");
    reveal_strlit("l");
    reveal_strlit("l  ");
    lemma_tag_words();
    lemma_index_word(a);
    lemma_index_word(b);
    assert((element_text(Element::Line(a, b)) + "\n"@) + rest =~= "l"@ + ("  "@ + (vtn_text(a) + ("  "@ + (vtn_text(b) + ("\n"@ + rest))))));
    lemma_peel_line_end(Seq::<char>::empty(), rest);
    assert(Seq::<char>::empty() + ("\n"@ + rest) =~= "\n"@ + rest);
    lemma_peel_sep_word("  "@, vtn_text(b), ("\n"@ + rest));
    lemma_peel_sep_word("  "@, vtn_text(a), ("  "@ + (vtn_text(b) + ("\n"@ + rest))));
    lemma_peel_word("l"@, ("  "@ + (vtn_text(a) + ("  "@ + (vtn_text(b) + ("\n"@ + rest))))));
    assert(tokenize((element_text(Element::Line(a, b)) + "\n"@) + rest) =~= element_tokens(Element::Line(a, b)) + tokenize(rest));
}

proof fn lemma_tokens_face(a: VTNIndex, b: VTNIndex, c: VTNIndex, rest: Seq<char>)
    ensures
        tokenize((element_text(Element::Face(a, b, c)) + "\n"@) + rest) == element_tokens(Element::Face(a, b, c)) + tokenize(rest),
{
    reveal_strlit("  ");
    reveal_strlit("\n");
    reveal_strlit("f");
    reveal_strlit("f  ");
    lemma_tag_words();
    lemma_index_word(a);
    lemma_index_word(b);
    lemma_index_word(c);
    assert((element_text(Element::Face(a, b, c)) + "\n"@) + rest =~= "f"@ + ("  "@ + (vtn_text(a) + ("  "@ + (vtn_text(b) + ("  "@ + (vtn_text(c) + ("\n"@ + rest))))))));
    lemma_peel_line_end(Seq::<char>::empty(), rest);
    assert(Seq::<char>::empty() + ("\n"@ + rest) =~= "\n"@ + rest);
    lemma_peel_sep_word("  "@, vtn_text(c), ("\n"@ + rest));
    lemma_peel_sep_word("  "@, vtn_text(b), ("  "@ + (vtn_text(c) + ("\n"@ + rest))));
    lemma_peel_sep_word("  "@, vtn_text(a), ("  "@ + (vtn_text(b) + ("  "@ + (vtn_text(c) + ("\n"@ + rest))))));
    lemma_peel_word("f"@, ("  "@ + (vtn_text(a) + ("  "@ + (vtn_text(b) + ("  "@ + (vtn_text(c) + ("\n"@ + rest))))))));
    assert(tokenize((element_text(Element::Face(a, b, c)) + "\n"@) + rest) =~= element_tokens(Element::Face(a, b, c)) + tokenize(rest));
}

/// Names, each followed by whitespace.
proof fn lemma_tokens_names(ns: Seq<Seq<char>>, rest: Seq<char>)
    requires
        forall|j: int| 0 <= j < ns.len() ==> is_word(#[trigger] ns[j]),
    ensures
        tokenize(names_text(ns) + rest) == ns + tokenize(rest),
    decreases ns.len(),
{
    reveal_strlit("  ");
    if ns.len() == 0 {
        assert(names_text(ns) + rest =~= rest);
        assert(ns + tokenize(rest) =~= tokenize(rest));
    } else {
        let front = ns.drop_last();
        let w = ns.last();
        assert(names_text(ns) + rest =~= names_text(front) + (w + ("  "@ + rest)));
        assert forall|j: int| 0 <= j < front.len() implies is_word(#[trigger] front[j]) by {
            assert(front[j] == ns[j]);
        }
        lemma_tokens_names(front, w + ("  "@ + rest));
        assert(is_word(ns[ns.len() - 1]));
        lemma_peel_word(w, "  "@ + rest);
        lemma_peel_ws("  "@, rest);
        assert(ns =~= front + seq![w]);
        assert(tokenize(names_text(ns) + rest) =~= ns + tokenize(rest));
    }
}

/// The group names of a statement are words.
pub open spec fn statement_words(st: GroupingModel) -> bool {
    match st {
        GroupingModel::G(ns) => forall|j: int| 0 <= j < ns.len() ==> is_word(#[trigger] ns[j]),
        GroupingModel::S(_) => true,
    }
}

proof fn lemma_tokens_statement(st: GroupingModel, rest: Seq<char>)
    requires
        statement_words(st),
    ensures
        tokenize(statement_text(st) + rest) == statement_tokens(st) + tokenize(rest),
{
    match st {
        GroupingModel::G(ns) => {
            reveal_strlit("g  ");
            reveal_strlit("g");
            reveal_strlit("  ");
            lemma_tag_words();
            let x = names_text(ns) + ("\n"@ + rest);
            assert(statement_text(st) + rest =~= "g"@ + ("  "@ + x));
            lemma_peel_word("g"@, "  "@ + x);
            lemma_peel_ws("  "@, x);
            lemma_tokens_names(ns, "\n"@ + rest);
            lemma_peel_line_end(Seq::<char>::empty(), rest);
            assert(Seq::<char>::empty() + ("\n"@ + rest) =~= "\n"@ + rest);
            assert(tokenize(statement_text(st) + rest) =~= statement_tokens(st) + tokenize(rest));
        },
        GroupingModel::S(n) => {
            lemma_tokens_smoothing(n, rest);
        },
    }
}

proof fn lemma_tokens_statements(sts: Seq<GroupingModel>, rest: Seq<char>)
    requires
        forall|j: int| 0 <= j < sts.len() ==> statement_words(#[trigger] sts[j]),
    ensures
        tokenize(statements_text(sts) + rest) == statements_tokens(sts) + tokenize(rest),
    decreases sts.len(),
{
    if sts.len() == 0 {
        assert(statements_text(sts) + rest =~= rest);
        assert(statements_tokens(sts) + tokenize(rest) =~= tokenize(rest));
    } else {
        let front = sts.drop_last();
        let last = sts.last();
        assert(statements_text(sts) + rest =~= statements_text(front) + (statement_text(last) + rest));
        assert forall|j: int| 0 <= j < front.len() implies statement_words(#[trigger] front[j]) by {
            assert(front[j] == sts[j]);
        }
        assert(statement_words(sts[sts.len() - 1]));
        lemma_tokens_statements(front, statement_text(last) + rest);
        lemma_tokens_statement(last, rest);
        assert(tokenize(statements_text(sts) + rest) =~= statements_tokens(sts) + tokenize(rest));
    }
}

/// The coordinates of a vertex, and its weight where it is written, are
/// words.
pub open spec fn vertex_words(v: VertexModel, unit_w: bool) -> bool {
    is_word(v.x) && is_word(v.y) && is_word(v.z) && (!unit_w ==> is_word(v.w))
}

proof fn lemma_tokens_vertex_lines(vs: Seq<VertexModel>, w: Seq<bool>, rest: Seq<char>)
    requires
        vs.len() <= w.len(),
        forall|j: int| 0 <= j < vs.len() ==> vertex_words(#[trigger] vs[j], w[j]),
    ensures
        tokenize(vertex_lines(vs, w) + rest) == vertex_lines_tokens(vs, w) + tokenize(rest),
    decreases vs.len(),
{
    if vs.len() == 0 {
        assert(vertex_lines(vs, w) + rest =~= rest);
        assert(vertex_lines_tokens(vs, w) + tokenize(rest) =~= tokenize(rest));
    } else {
        let front = vs.drop_last();
        let v = vs.last();
        let u = w[vs.len() - 1];
        assert(vertex_lines(vs, w) + rest =~= vertex_lines(front, w) + (crate::compose::vertex_line(v, u) + rest));
        assert forall|j: int| 0 <= j < front.len() implies vertex_words(#[trigger] front[j], w[j]) by {
            assert(front[j] == vs[j]);
        }
        assert(vertex_words(vs[vs.len() - 1], u));
        lemma_tokens_vertex_lines(front, w, crate::compose::vertex_line(v, u) + rest);
        if u {
            lemma_tokens_vertex_unit(v, rest);
        } else {
            lemma_tokens_vertex_weighted(v, rest);
        }
        assert(tokenize(vertex_lines(vs, w) + rest) =~= vertex_lines_tokens(vs, w) + tokenize(rest));
    }
}

/// The coordinates of a texture vertex are words.
pub open spec fn texture_vertex_words(v: TextureVertexModel) -> bool {
    is_word(v.u) && is_word(v.v) && is_word(v.w)
}

/// The coordinates of a normal are words.
pub open spec fn normal_vertex_words(v: NormalVertexModel) -> bool {
    is_word(v.i) && is_word(v.j) && is_word(v.k)
}

proof fn lemma_tokens_texture_vertex_lines(vs: Seq<TextureVertexModel>, rest: Seq<char>)
    requires
        forall|j: int| 0 <= j < vs.len() ==> texture_vertex_words(#[trigger] vs[j]),
    ensures
        tokenize(texture_vertex_lines(vs) + rest) == texture_vertex_lines_tokens(vs) + tokenize(rest),
    decreases vs.len(),
{
    if vs.len() == 0 {
        assert(texture_vertex_lines(vs) + rest =~= rest);
        assert(texture_vertex_lines_tokens(vs) + tokenize(rest) =~= tokenize(rest));
    } else {
        let front = vs.drop_last();
        let v = vs.last();
        assert(texture_vertex_lines(vs) + rest =~= texture_vertex_lines(front) + (texture_vertex_line(v) + rest));
        assert forall|j: int| 0 <= j < front.len() implies texture_vertex_words(#[trigger] front[j]) by {
            assert(front[j] == vs[j]);
        }
        assert(texture_vertex_words(vs[vs.len() - 1]));
        lemma_tokens_texture_vertex_lines(front, texture_vertex_line(v) + rest);
        lemma_tokens_texture_vertex(v, rest);
        assert(tokenize(texture_vertex_lines(vs) + rest) =~= texture_vertex_lines_tokens(vs) + tokenize(rest));
    }
}

proof fn lemma_tokens_normal_vertex_lines(vs: Seq<NormalVertexModel>, rest: Seq<char>)
    requires
        forall|j: int| 0 <= j < vs.len() ==> normal_vertex_words(#[trigger] vs[j]),
    ensures
        tokenize(normal_vertex_lines(vs) + rest) == normal_vertex_lines_tokens(vs) + tokenize(rest),
    decreases vs.len(),
{
    if vs.len() == 0 {
        assert(normal_vertex_lines(vs) + rest =~= rest);
        assert(normal_vertex_lines_tokens(vs) + tokenize(rest) =~= tokenize(rest));
    } else {
        let front = vs.drop_last();
        let v = vs.last();
        assert(normal_vertex_lines(vs) + rest =~= normal_vertex_lines(front) + (normal_vertex_line(v) + rest));
        assert forall|j: int| 0 <= j < front.len() implies normal_vertex_words(#[trigger] front[j]) by {
            assert(front[j] == vs[j]);
        }
        assert(normal_vertex_words(vs[vs.len() - 1]));
        lemma_tokens_normal_vertex_lines(front, normal_vertex_line(v) + rest);
        lemma_tokens_normal_vertex(v, rest);
        assert(tokenize(normal_vertex_lines(vs) + rest) =~= normal_vertex_lines_tokens(vs) + tokenize(rest));
    }
}

proof fn lemma_tokens_element_line(e: Element, rest: Seq<char>)
    ensures
        tokenize((element_text(e) + "\n"@) + rest) == element_tokens(e) + tokenize(rest),
{
    match e {
        Element::Point(a) => lemma_tokens_point(a, rest),
        Element::Line(a, b) => lemma_tokens_line(a, b, rest),
        Element::Face(a, b, c) => lemma_tokens_face(a, b, c, rest),
    }
}

proof fn lemma_tokens_element_lines(es: Seq<Element>, start: nat, n: nat, rest: Seq<char>)
    ensures
        tokenize(element_lines(es, start, n) + rest) == element_lines_tokens(es, start, n) + tokenize(rest),
    decreases n,
{
    if n == 0 {
        assert(element_lines(es, start, n) + rest =~= rest);
        assert(element_lines_tokens(es, start, n) + tokenize(rest) =~= tokenize(rest));
    } else {
        let e = es[start + n - 1];
        let front = element_lines(es, start, (n - 1) as nat);
        assert(element_lines(es, start, n) + rest =~= front + ((element_text(e) + "\n"@) + rest));
        lemma_tokens_element_lines(es, start, (n - 1) as nat, (element_text(e) + "\n"@) + rest);
        lemma_tokens_element_line(e, rest);
        assert(tokenize(element_lines(es, start, n) + rest) =~= element_lines_tokens(es, start, n) + tokenize(
            rest,
        ));
    }
}

/// A count comment, then an empty line.
proof fn lemma_tokens_count_comment(n: nat, label: Seq<char>, rest: Seq<char>)
    requires
        forall|i: int| 0 <= i < label.len() ==> !is_newline_char(#[trigger] label[i]),
    ensures
        tokenize(("# "@ + decimal_text(n) + label) + ("\n"@ + ("\n"@ + rest))) == count_tokens() + tokenize(rest),
{
    reveal_strlit("# ");
    lemma_numeral_word(n);
    let c = "# "@ + decimal_text(n) + label;
    let d = decimal_text(n);
    assert forall|i: int| 0 <= i < c.len() implies !is_newline_char(#[trigger] c[i]) by {
        if i < 2 {
        } else if i < 2 + d.len() {
            assert(c[i] == d[i - 2]);
        } else {
            assert(c[i] == label[i - 2 - d.len()]);
        }
    }
    assert(c[0] == '#');
    lemma_peel_comment_lines(c, rest);
}

proof fn lemma_tokens_count_text(n: nat, label: Seq<char>, rest: Seq<char>)
    requires
        forall|i: int| 0 <= i < label.len() ==> !is_newline_char(#[trigger] label[i]),
    ensures
        tokenize(count_text(n, label + "\n"@) + rest) == count_tokens() + tokenize(rest),
{
    assert(count_text(n, label + "\n"@) + rest =~= ("# "@ + decimal_text(n) + label) + ("\n"@ + ("\n"@ + rest)));
    lemma_tokens_count_comment(n, label, rest);
}

proof fn lemma_tokens_block(o: ObjectModel, iv: (usize, usize), sts: Seq<GroupingModel>, rest: Seq<char>)
    requires
        forall|j: int| 0 <= j < sts.len() ==> statement_words(#[trigger] sts[j]),
    ensures
        tokenize(interval_block(o, iv, sts) + rest) == block_tokens(o, iv, sts) + tokenize(rest),
{
    reveal_strlit(" elements\n\n");
    reveal_strlit(" elements");
    reveal_strlit("\n");
    let k = (iv.1 - iv.0) as nat;
    let el = element_lines(o.element_set, iv.0 as nat, k);
    let c = "# "@ + decimal_text(k) + " elements"@;
    let tail = c + ("\n"@ + ("\n"@ + rest));
    assert(" elements\n\n"@ =~= " elements"@ + "\n"@ + "\n"@);
    assert(interval_block(o, iv, sts) + rest =~= statements_text(sts) + (el + tail));
    lemma_tokens_statements(sts, el + tail);
    lemma_tokens_element_lines(o.element_set, iv.0 as nat, k, tail);
    assert forall|i: int| 0 <= i < " elements"@.len() implies !is_newline_char(#[trigger] " elements"@[i]) by {
    }
    lemma_tokens_count_comment(k, " elements"@, rest);
    assert(tokenize(interval_block(o, iv, sts) + rest) =~= block_tokens(o, iv, sts) + tokenize(rest));
}

proof fn lemma_tokens_blocks(o: ObjectModel, ins: Seq<((usize, usize), Seq<GroupingModel>)>, rest: Seq<char>)
    requires
        forall|k: int, j: int|
            0 <= k < ins.len() && 0 <= j < ins[k].1.len() ==> statement_words(#[trigger] ins[k].1[j]),
    ensures
        tokenize(interval_blocks(o, ins) + rest) == blocks_tokens(o, ins) + tokenize(rest),
    decreases ins.len(),
{
    if ins.len() == 0 {
        assert(interval_blocks(o, ins) + rest =~= rest);
        assert(blocks_tokens(o, ins) + tokenize(rest) =~= tokenize(rest));
    } else {
        let front = ins.drop_last();
        let last = ins.last();
        let blk = interval_block(o, last.0, last.1);
        assert(interval_blocks(o, ins) + rest =~= interval_blocks(o, front) + (blk + rest));
        assert forall|k: int, j: int| 0 <= k < front.len() && 0 <= j < front[k].1.len() implies statement_words(
            #[trigger] front[k].1[j],
        ) by {
            assert(front[k] == ins[k]);
        }
        assert forall|j: int| 0 <= j < last.1.len() implies statement_words(#[trigger] last.1[j]) by {
            assert(last == ins[ins.len() - 1]);
        }
        lemma_tokens_blocks(o, front, blk + rest);
        lemma_tokens_block(o, last.0, last.1, rest);
        assert(tokenize(interval_blocks(o, ins) + rest) =~= blocks_tokens(o, ins) + tokenize(rest));
    }
}

/// The statements the compositor writes for an object name groups by
/// words, where the object's group names are words.
proof fn lemma_instructions_words(o: ObjectModel)
    requires
        text_composable(o),
        o.shape_set.len() <= usize::MAX,
        forall|j: int| 0 <= j < o.group_set.len() ==> is_word(#[trigger] o.group_set[j]),
    ensures
        ({
            let ins = instructions(o);
            forall|k: int, j: int|
                0 <= k < ins.len() && 0 <= j < ins[k].1.len() ==> statement_words(#[trigger] ins[k].1[j])
        }),
{
    let ins = instructions(o);
    let runs = runs_of(o.shape_set, o.shape_set.len());
    crate::compose::lemma_runs(o.shape_set, o.shape_set.len());
    assert forall|k: int, j: int| 0 <= k < ins.len() && 0 <= j < ins[k].1.len() implies statement_words(
        #[trigger] ins[k].1[j],
    ) by {
        let a = runs[k].0 as int;
        assert(ins[k] == (runs[k], run_statements(o, a)));
        assert(run_nameable(o, a));
        let e = o.shape_set[a];
        let names = entry_group_names(o, e);
        if a == 0 || e.groups != o.shape_set[a - 1].groups {
            assert forall|i: int| 0 <= i < names.len() implies is_word(#[trigger] names[i]) by {
                assert(names[i] == o.group_set[e.groups[i] - 1]);
            }
        }
    }
}

/// An object's name, coordinates and group names are words.
pub open spec fn text_words(o: ObjectModel, unit_w: Seq<bool>) -> bool {
    &&& is_word(o.name)
    &&& unit_w.len() == o.vertex_set.len()
    &&& forall|j: int| 0 <= j < o.vertex_set.len() ==> vertex_words(#[trigger] o.vertex_set[j], unit_w[j])
    &&& forall|j: int| 0 <= j < o.texture_vertex_set.len() ==> texture_vertex_words(#[trigger] o.texture_vertex_set[j])
    &&& forall|j: int| 0 <= j < o.normal_vertex_set.len() ==> normal_vertex_words(#[trigger] o.normal_vertex_set[j])
    &&& forall|j: int| 0 <= j < o.group_set.len() ==> is_word(#[trigger] o.group_set[j])
}

#[verifier::rlimit(60)]
#[verifier::spinoff_prover]
proof fn lemma_tokens_text_object(o: ObjectModel, w: Seq<bool>, rest: Seq<char>)
    requires
        text_words(o, w),
        text_composable(o),
        o.shape_set.len() <= usize::MAX,
    ensures
        tokenize(text_object(o, w) + rest) == seq!["o"@, o.name, "\n"@] + body_tokens(o, w) + tokenize(rest),
{
    reveal_strlit(" vertices\n");
    reveal_strlit(" vertices");
    reveal_strlit(" texture vertices\n");
    reveal_strlit(" texture vertices");
    reveal_strlit(" normal vertices\n");
    reveal_strlit(" normal vertices");
    reveal_strlit("\n");
    assert(" vertices\n"@ =~= " vertices"@ + "\n"@);
    assert(" texture vertices\n"@ =~= " texture vertices"@ + "\n"@);
    assert(" normal vertices\n"@ =~= " normal vertices"@ + "\n"@);
    assert forall|i: int| 0 <= i < " vertices"@.len() implies !is_newline_char(#[trigger] " vertices"@[i]) by {
    }
    assert forall|i: int| 0 <= i < " texture vertices"@.len() implies !is_newline_char(
        #[trigger] " texture vertices"@[i],
    ) by {
    }
    assert forall|i: int| 0 <= i < " normal vertices"@.len() implies !is_newline_char(
        #[trigger] " normal vertices"@[i],
    ) by {
    }
    let ins = instructions(o);
    let ib = interval_blocks(o, ins);
    let cn = count_text(o.normal_vertex_set.len(), " normal vertices\n"@);
    let ct = count_text(o.texture_vertex_set.len(), " texture vertices\n"@);
    let cv = count_text(o.vertex_set.len(), " vertices\n"@);
    let nl = normal_vertex_lines(o.normal_vertex_set);
    let tl = texture_vertex_lines(o.texture_vertex_set);
    let vl = vertex_lines(o.vertex_set, w);
    let r6 = ib + rest;
    let r5 = cn + r6;
    let r4 = nl + r5;
    let r3 = ct + r4;
    let r2 = tl + r3;
    let r1 = cv + r2;
    let r0 = vl + r1;
    assert(text_object(o, w) + rest =~= object_name_text(o.name) + r0);
    lemma_tokens_object_name(o.name, r0);
    lemma_tokens_vertex_lines(o.vertex_set, w, r1);
    lemma_tokens_count_text(o.vertex_set.len(), " vertices"@, r2);
    lemma_tokens_texture_vertex_lines(o.texture_vertex_set, r3);
    lemma_tokens_count_text(o.texture_vertex_set.len(), " texture vertices"@, r4);
    lemma_tokens_normal_vertex_lines(o.normal_vertex_set, r5);
    lemma_tokens_count_text(o.normal_vertex_set.len(), " normal vertices"@, r6);
    lemma_instructions_words(o);
    lemma_tokens_blocks(o, ins, rest);
    assert(tokenize(text_object(o, w) + rest) =~= seq!["o"@, o.name, "\n"@] + body_tokens(o, w) + tokenize(rest));
}

/// The tokens of the texts of the first `m` objects.
pub open spec fn chunks_upto(os: Seq<ObjectModel>, unit_w: Seq<Seq<bool>>, m: nat) -> Seq<Seq<char>>
    decreases m,
{
    if m == 0 {
        Seq::empty()
    } else {
        chunks_upto(os, unit_w, (m - 1) as nat) + object_chunk(os[m - 1], unit_w[m - 1])
    }
}

pub proof fn lemma_chunks_split(os: Seq<ObjectModel>, unit_w: Seq<Seq<bool>>, m: nat)
    requires
        m <= os.len(),
    ensures
        chunks_upto(os, unit_w, m) + chunks_from(os, unit_w, m) == chunks_from(os, unit_w, 0),
    decreases m,
{
    if m == 0 {
        assert(chunks_upto(os, unit_w, m) + chunks_from(os, unit_w, m) =~= chunks_from(os, unit_w, 0));
    } else {
        lemma_chunks_split(os, unit_w, (m - 1) as nat);
        assert(chunks_from(os, unit_w, (m - 1) as nat) == object_chunk(os[m - 1], unit_w[m - 1]) + chunks_from(
            os,
            unit_w,
            m,
        ));
        assert(chunks_upto(os, unit_w, m) + chunks_from(os, unit_w, m) =~= chunks_upto(os, unit_w, (m - 1) as nat)
            + chunks_from(os, unit_w, (m - 1) as nat));
    }
}

/// The begin and end comments of an object's text.
#[verifier::rlimit(60)]
#[verifier::spinoff_prover]
proof fn lemma_tokens_object_framed(o: ObjectModel, w: Seq<bool>, k: nat, rest: Seq<char>)
    requires
        text_words(o, w),
        text_composable(o),
        o.shape_set.len() <= usize::MAX,
    ensures
        tokenize(
            "#### BEGIN Object "@ + decimal_text(k) + "\n"@ + text_object(o, w) + "#### END Object "@ + decimal_text(k)
                + "\n"@ + "\n"@ + rest,
        ) == object_chunk(o, w) + tokenize(rest),
{
    reveal_strlit("#### BEGIN Object ");
    reveal_strlit("#### END Object ");
    reveal_strlit("\n");
    lemma_numeral_word(k);
    let d = decimal_text(k);
    let b = "#### BEGIN Object "@ + d;
    let e = "#### END Object "@ + d;
    assert forall|i: int| 0 <= i < b.len() implies !is_newline_char(#[trigger] b[i]) by {
        if i >= 18 {
            assert(b[i] == d[i - 18]);
        }
    }
    assert forall|i: int| 0 <= i < e.len() implies !is_newline_char(#[trigger] e[i]) by {
        if i >= 16 {
            assert(e[i] == d[i - 16]);
        }
    }
    assert(b[0] == '#' && e[0] == '#');
    let tail = e + ("\n"@ + ("\n"@ + rest));
    let x = text_object(o, w) + tail;
    assert("#### BEGIN Object "@ + decimal_text(k) + "\n"@ + text_object(o, w) + "#### END Object "@
        + decimal_text(k) + "\n"@ + "\n"@ + rest =~= b + ("\n"@ + x));
    assert("\n"@ =~= seq!['\n']);
    lemma_peel_comment(b, "\n"@ + x);
    lemma_peel_nl(x);
    lemma_tokens_text_object(o, w, tail);
    lemma_peel_comment_lines(e, rest);
    assert(object_chunk(o, w) + tokenize(rest) =~= seq!["\n"@] + (seq!["o"@, o.name, "\n"@] + body_tokens(o, w)
        + (seq!["\n"@, "\n"@] + tokenize(rest))));
}

proof fn lemma_assoc<A>(a: Seq<A>, b: Seq<A>, c: Seq<A>)
    ensures
        (a + b) + c == a + (b + c),
{
    assert((a + b) + c =~= a + (b + c));
}

#[verifier::rlimit(60)]
#[verifier::spinoff_prover]
pub proof fn lemma_tokens_text_objects(os: Seq<ObjectModel>, ws: Seq<Seq<bool>>, m: nat, rest: Seq<char>)
    requires
        m <= os.len(),
        ws.len() == os.len(),
        forall|j: int| 0 <= j < os.len() ==> text_words(#[trigger] os[j], ws[j]),
        forall|j: int| 0 <= j < os.len() ==> text_composable(#[trigger] os[j]),
        forall|j: int| 0 <= j < os.len() ==> (#[trigger] os[j]).shape_set.len() <= usize::MAX,
    ensures
        tokenize(text_objects(os, ws, m) + rest) == chunks_upto(os, ws, m) + tokenize(rest),
    decreases m,
{
    if m == 0 {
        assert(text_objects(os, ws, m) + rest =~= rest);
        assert(chunks_upto(os, ws, m) + tokenize(rest) =~= tokenize(rest));
    } else {
        let k = (m - 1) as nat;
        let o = os[k as int];
        let w = ws[k as int];
        let framed = "#### BEGIN Object "@ + decimal_text(k) + "\n"@ + text_object(o, w) + "#### END Object "@
            + decimal_text(k) + "\n"@ + "\n"@;
        assert(text_objects(os, ws, m) == text_objects(os, ws, k) + framed);
        lemma_assoc(text_objects(os, ws, k), framed, rest);
        lemma_tokens_text_objects(os, ws, k, framed + rest);
        lemma_tokens_object_framed(o, w, k, rest);
        lemma_assoc(chunks_upto(os, ws, k), object_chunk(o, w), tokenize(rest));
    }
}

/// The tokens from a position on are those of the rest of the text.
pub proof fn lemma_tokens_suffix(s: Seq<char>, p: int)
    requires
        0 <= p <= s.len(),
    ensures
        tokens_from(s, p) == tokenize(s.skip(p)),
{
    lemma_tokens_shift(s.take(p), s.skip(p), 0);
    assert(s.take(p) + s.skip(p) =~= s);
}

proof fn lemma_line_end_before(s: Seq<char>, p: int)
    requires
        0 <= p <= s.len(),
    ensures
        forall|k: int| p <= k < line_end(s, p) ==> !is_newline_char(#[trigger] s[k]),
    decreases s.len() - p,
{
    if p < s.len() && !is_newline_char(s[p]) {
        lemma_line_end_before(s, p + 1);
    }
}

/// Text `x` inserted after `a` and before `b` changes no token that the
/// scan from position `p` of `a` finds, where `x` holds no newline, starts
/// with a delimiter, changes no token ahead of `b`, and does not run a word
/// of `a` into one of `b`.
proof fn lemma_insert_neutral(a: Seq<char>, x: Seq<char>, b: Seq<char>, p: int)
    requires
        0 <= p <= a.len(),
        forall|i: int| 0 <= i < x.len() ==> !is_newline_char(#[trigger] x[i]),
        x.len() > 0 ==> is_delimiter_char(x[0]),
        tokenize(x + b) == tokenize(b),
        a.len() == 0 || is_delimiter_char(a.last()) || b.len() == 0 || is_delimiter_char(b[0]),
    ensures
        tokens_from(a + x + b, p) == tokens_from(a + b, p),
    decreases a.len() - p,
{
    let s1 = a + x + b;
    let s2 = a + b;
    let n = a.len() as int;
    let m = x.len() as int;
    if p == n {
        lemma_tokens_suffix(s1, n);
        lemma_tokens_suffix(s2, n);
        assert(s1.skip(n) =~= x + b);
        assert(s2.skip(n) =~= b);
    } else {
        assert(s1[p] == a[p] && s2[p] == a[p]);
        let c = a[p];
        if is_whitespace_char(c) {
            lemma_tokens_ws(s1, p);
            lemma_tokens_ws(s2, p);
            lemma_insert_neutral(a, x, b, p + 1);
        } else if is_newline_char(c) {
            lemma_tokens_nl(s1, p);
            lemma_tokens_nl(s2, p);
            lemma_insert_neutral(a, x, b, p + 1);
        } else if c == '#' {
            lemma_tokens_comment(s1, p);
            lemma_tokens_comment(s2, p);
            crate::lexer::lemma_line_end(s2, p);
            lemma_line_end_before(s2, p);
            let e = line_end(s2, p);
            if e < n {
                assert forall|k: int| p <= k < e implies !is_newline_char(#[trigger] s1[k]) by {
                    assert(s1[k] == s2[k]);
                }
                lemma_line_end_skip(s1, p, e);
                assert(s1[e] == s2[e]);
                assert(line_end(s1, e) == e);
                lemma_insert_neutral(a, x, b, e);
            } else {
                assert forall|k: int| p <= k < n implies !is_newline_char(#[trigger] s2[k]) by {
                }
                lemma_line_end_skip(s2, p, n);
                assert forall|k: int| p <= k < n + m implies !is_newline_char(#[trigger] s1[k]) by {
                    if k < n {
                        assert(s1[k] == s2[k]);
                    } else {
                        assert(s1[k] == x[k - n]);
                    }
                }
                lemma_line_end_skip(s1, p, n + m);
                lemma_line_end_shift(a, b, 0);
                lemma_line_end_shift(a + x, b, 0);
                assert(s1 == (a + x) + b);
                let k = line_end(b, 0);
                crate::lexer::lemma_line_end(b, 0);
                lemma_tokens_suffix(s1, n + m + k);
                lemma_tokens_suffix(s2, n + k);
                assert(s1.skip(n + m + k) =~= b.skip(k));
                assert(s2.skip(n + k) =~= b.skip(k));
            }
        } else {
            crate::lexer::lemma_word_end(s2, p);
            let d = word_end(s2, p);
            assert(whitespace_end(s1, p) == p && whitespace_end(s2, p) == p);
            assert(comment_end(s1, p) == p && comment_end(s2, p) == p);
            lemma_token_bounds(s1, p);
            lemma_token_bounds(s2, p);
            if d < n {
                assert forall|k: int| p <= k < d implies !is_delimiter_char(#[trigger] s1[k]) by {
                    assert(s1[k] == s2[k]);
                }
                lemma_word_end_skip(s1, p, d);
                assert(s1[d] == s2[d]);
                assert(word_end(s1, d) == d);
                assert(s1.subrange(p, d) =~= s2.subrange(p, d));
                lemma_insert_neutral(a, x, b, d);
            } else {
                assert(!is_delimiter_char(s2[n - 1]));
                assert(a.last() == s2[n - 1]);
                assert forall|k: int| p <= k < n implies !is_delimiter_char(#[trigger] s1[k]) by {
                    assert(s1[k] == s2[k]);
                }
                lemma_word_end_skip(s1, p, n);
                lemma_word_end_skip(s2, p, n);
                if m > 0 {
                    assert(s1[n] == x[0]);
                } else if b.len() > 0 {
                    assert(s1[n] == b[0]);
                }
                if b.len() > 0 {
                    assert(s2[n] == b[0]);
                }
                assert(word_end(s1, n) == n);
                assert(word_end(s2, n) == n);
                assert(s1.subrange(p, n) =~= s2.subrange(p, n));
                lemma_insert_neutral(a, x, b, n);
            }
        }
    }
}

/// Blanks inserted where the text already separates tokens (after a
/// character that ends a word, before one, or at either end of the text)
/// change no token.
pub proof fn lemma_blanks_change_no_token(a: Seq<char>, ws: Seq<char>, b: Seq<char>)
    requires
        forall|i: int| 0 <= i < ws.len() ==> is_whitespace_char(#[trigger] ws[i]),
        a.len() == 0 || is_delimiter_char(a.last()) || b.len() == 0 || is_delimiter_char(b[0]),
    ensures
        tokenize(a + ws + b) == tokenize(a + b),
{
    lemma_peel_ws(ws, b);
    assert(ws.len() > 0 ==> is_whitespace_char(ws[0]));
    lemma_insert_neutral(a, ws, b, 0);
}

/// A comment inserted at the end of a line, or at the end of the text,
/// changes no token.
pub proof fn lemma_comment_changes_no_token(a: Seq<char>, c: Seq<char>, b: Seq<char>)
    requires
        c.len() > 0,
        c[0] == '#',
        forall|i: int| 0 <= i < c.len() ==> !is_newline_char(#[trigger] c[i]),
        b.len() == 0 || is_newline_char(b[0]),
    ensures
        tokenize(a + c + b) == tokenize(a + b),
{
    lemma_peel_comment(c, b);
    lemma_insert_neutral(a, c, b, 0);
}

} // verus!
