use vstd::prelude::*;
use crate::parser::ast::{
    PromptModel, PromptOptionModel, SceneModel, ScenePartModel, SpeakerChangeMarkerModel,
    TextPartModel,
};
use crate::parser::grammar::{keyword_at, separator_len};
use crate::parser::scan::{at, at_class, in_class, run, CharClass};
use crate::roundtrip::expression::{lemma_expression, lemma_part_first, lemma_text_from};
use crate::roundtrip::scene_steps::{
    lemma_block_end, lemma_block_more, lemma_comment_step, lemma_dialogue_step, lemma_keyword,
    lemma_keywords_are_words, lemma_marker_step, lemma_modifiers_end, lemma_modifiers_more,
    lemma_narration_step, lemma_option_step, lemma_options_end, lemma_options_more,
    lemma_prompt_bare, lemma_prompt_led, lemma_reads_line, lemma_scene_step, lemma_separator,
    lemma_statement_step, lemma_words, reads_block, reads_line, reads_modifiers, reads_option,
    reads_options, reads_part, reads_scene,
};
use crate::roundtrip::shape::{
    ends_line, ends_value, is_identifier, printable_option, printable_part, printable_scene,
    printable_text,
};
use crate::roundtrip::text::{
    before, column_after, holds, laid, lemma_concat2, lemma_concat3, lemma_concat4, lemma_concat5,
    lemma_holds_char, lemma_holds_item, lemma_holds_split, lemma_holds_then, lemma_layout_all_at,
    lemma_layout_none, lemma_layout_push, lemma_line_break, start, then,
};
use crate::unparser::{
    joined, spec_print_block, spec_print_dialogue, spec_print_expression, spec_print_lead_in,
    spec_print_modifiers, spec_print_option, spec_print_options, spec_print_scene,
    spec_print_scene_part, spec_print_scene_parts, spec_print_text_parts,
};
use crate::unparser::doc::{deeper, fits, layout, layout_all, line_break, DocModel};

verus! {

/// Whether the character at `pos` exists and is no white space.
pub open spec fn visible_at(s: Seq<char>, pos: int) -> bool {
    0 <= pos < s.len() && !in_class(CharClass::Space, s[pos])
}

/// A document on a new line prints as a line break and the document, laid
/// out from the indentation on.
pub proof fn lemma_on_new_line(d: DocModel, w: nat, i: nat, f: bool, c: nat)
    ensures
        laid(DocModel::Concat(seq![DocModel::HardLine, d]), w, i, f, c) == line_break(i) + laid(
            d,
            w,
            i,
            f,
            i,
        ),
        column_after(DocModel::Concat(seq![DocModel::HardLine, d]), w, i, f, c) == column_after(
            d,
            w,
            i,
            f,
            i,
        ),
{
    lemma_concat2(DocModel::HardLine, d, w, i, f, c);
    assert(Seq::<char>::empty() + line_break(i) =~= line_break(i));
}

/// Where `s` holds a line break and something visible behind it, the white
/// space from the line break on is the line break, and it is a separator.
pub proof fn lemma_lands(s: Seq<char>, q: int, i: nat)
    requires
        holds(s, q, line_break(i)),
        visible_at(s, q + i + 1),
    ensures
        run(s, q, CharClass::Space) == i + 1,
        separator_len(s, q) == i + 1,
        at(s, q, '\n'),
        !at_class(s, q, CharClass::InlineSpace),
        !at_class(s, q, CharClass::IdentChar),
        !at_class(s, q, CharClass::LineText),
        !at(s, q, '{'),
        ends_line(s, q),
        ends_value(s, q),
{
    lemma_line_break(i);
    lemma_holds_char(s, q, line_break(i), 0);
    assert forall|j: int| q < j < q + i + 1 implies in_class(
        CharClass::Space,
        #[trigger] s[j],
    ) by {
        lemma_holds_char(s, q, line_break(i), j - q);
    }
    lemma_separator(s, q, q + i + 1);
}

/// The documents of the modifiers of a marker print as the modifiers, each
/// behind a space; `s` holds them one after the other.
pub proof fn lemma_modifiers_from(
    modifiers: Seq<Seq<char>>,
    s: Seq<char>,
    p: int,
    k: int,
    w: nat,
    i: nat,
    f: bool,
    c: nat,
)
    requires
        forall|j: int| 0 <= j < modifiers.len() ==> is_identifier(#[trigger] modifiers[j]),
        0 <= k <= modifiers.len(),
        holds(s, p, layout_all(spec_print_modifiers(modifiers), w, i, f, c).0),
        at(s, p + layout_all(spec_print_modifiers(modifiers), w, i, f, c).0.len(), ']'),
    ensures
        before(spec_print_modifiers(modifiers), k, w, i, f, c).0.len() <= layout_all(
            spec_print_modifiers(modifiers),
            w,
            i,
            f,
            c,
        ).0.len(),
        reads_modifiers(
            s,
            p + before(spec_print_modifiers(modifiers), k, w, i, f, c).0.len(),
            modifiers.subrange(k, modifiers.len() as int),
            (layout_all(spec_print_modifiers(modifiers), w, i, f, c).0.len() + 1 - before(
                spec_print_modifiers(modifiers),
                k,
                w,
                i,
                f,
                c,
            ).0.len()) as nat,
        ),
        k < modifiers.len() ==> at(
            s,
            p + before(spec_print_modifiers(modifiers), k, w, i, f, c).0.len(),
            ' ',
        ),
    decreases modifiers.len() - k,
{
    let items = spec_print_modifiers(modifiers);
    let all = layout_all(items, w, i, f, c).0;
    reveal_strlit(" ");
    if k == modifiers.len() {
        assert(items.subrange(0, k) =~= items);
        assert(modifiers.subrange(k, modifiers.len() as int) =~= Seq::<Seq<char>>::empty());
        lemma_modifiers_end(s, p + all.len());
    } else {
        let here = before(items, k, w, i, f, c);
        let q = p + here.0.len();
        lemma_holds_item(s, p, items, k, w, i, f, c);
        lemma_layout_all_at(items, k, w, i, f, c);
        let word = modifiers[k];
        lemma_concat2(DocModel::Text(" "@), DocModel::Text(word), w, i, f, here.1);
        let space = then(start(here.1), DocModel::Text(" "@), w, i, f);
        lemma_holds_then(s, q, space, DocModel::Text(word), w, i, f);
        assert(space.0 =~= " "@);
        lemma_holds_char(s, q, " "@, 0);
        lemma_modifiers_from(modifiers, s, p, k + 1, w, i, f, c);
        let rest = modifiers.subrange(k + 1, modifiers.len() as int);
        assert(seq![word] + rest =~= modifiers.subrange(k, modifiers.len() as int));
        if k + 1 == modifiers.len() {
            assert(items.subrange(0, k + 1) =~= items);
        }
        let n = (all.len() + 1 - before(items, k + 1, w, i, f, c).0.len()) as nat;
        lemma_modifiers_more(s, q, word, rest, n);
    }
}

/// Where `s` holds a printed marker, the grammar reads the marker there.
pub proof fn lemma_marker(
    marker: SpeakerChangeMarkerModel,
    s: Seq<char>,
    p: int,
    w: nat,
    i: nat,
    f: bool,
    c: nat,
)
    requires
        printable_part(ScenePartModel::SpeakerChangeMarker(marker)),
        holds(
            s,
            p,
            laid(spec_print_scene_part(ScenePartModel::SpeakerChangeMarker(marker)), w, i, f, c),
        ),
    ensures
        reads_part(
            s,
            p,
            ScenePartModel::SpeakerChangeMarker(marker),
            laid(
                spec_print_scene_part(ScenePartModel::SpeakerChangeMarker(marker)),
                w,
                i,
                f,
                c,
            ).len(),
        ),
        at(s, p, '['),
{
    let a = DocModel::Text("["@);
    let b = DocModel::Text(marker.speaker_id);
    let items = spec_print_modifiers(marker.modifiers);
    let g = DocModel::Concat(items);
    let d = DocModel::Text("]"@);
    reveal_strlit("[");
    reveal_strlit("]");
    reveal_strlit("&");
    lemma_concat4(a, b, g, d, w, i, f, c);
    let first = then(start(c), a, w, i, f);
    let second = then(first, b, w, i, f);
    let third = then(second, g, w, i, f);
    lemma_holds_then(s, p, third, d, w, i, f);
    lemma_holds_then(s, p, second, g, w, i, f);
    lemma_holds_then(s, p, first, b, w, i, f);
    lemma_holds_then(s, p, start(c), a, w, i, f);
    assert(first.0 =~= "["@);
    let speaker = marker.speaker_id;
    let text = layout_all(items, w, i, f, second.1).0;
    lemma_holds_char(s, p, "["@, 0);
    lemma_holds_char(s, p + 1 + speaker.len() + text.len(), "]"@, 0);
    assert(items.subrange(0, 0) =~= Seq::<DocModel>::empty());
    lemma_modifiers_from(marker.modifiers, s, p + 1 + speaker.len(), 0, w, i, f, second.1);
    assert(marker.modifiers.subrange(0, marker.modifiers.len() as int) =~= marker.modifiers);
    lemma_marker_step(s, p, speaker, marker.modifiers, text.len() + 1);
}

/// Where `s` holds a printed text of a line and the line ends behind it,
/// the grammar reads the text there.
pub proof fn lemma_line(
    parts: Seq<TextPartModel>,
    s: Seq<char>,
    p: int,
    w: nat,
    i: nat,
    f: bool,
    c: nat,
)
    requires
        printable_text(parts, CharClass::LineText),
        holds(s, p, laid(spec_print_dialogue(parts), w, i, f, c)),
        ends_line(s, p + laid(spec_print_dialogue(parts), w, i, f, c).len()),
    ensures
        reads_line(s, p, parts, laid(spec_print_dialogue(parts), w, i, f, c).len()),
        parts.len() > 0 ==> laid(spec_print_dialogue(parts), w, i, f, c).len() > 0 && (
        match parts[0] {
            TextPartModel::Text(t) => laid(spec_print_dialogue(parts), w, i, f, c)[0] == t[0],
            TextPartModel::Expression(_) => laid(spec_print_dialogue(parts), w, i, f, c)[0]
                == '{',
        }),
{
    let items = spec_print_text_parts(parts);
    assert(items.subrange(0, 0) =~= Seq::<DocModel>::empty());
    lemma_text_from(parts, CharClass::LineText, s, p, 0, w, i, f, c);
    assert(parts.subrange(0, parts.len() as int) =~= parts);
    lemma_reads_line(s, p, parts, layout_all(items, w, i, f, c).0.len());
    if parts.len() > 0 {
        lemma_layout_all_at(items, 0, w, i, f, c);
        lemma_part_first(parts[0], w, i, f, c);
        let own = laid(items[0], w, i, f, c);
        let all = layout_all(items, w, i, f, c).0;
        assert(all[0] == own[0]) by {
            assert(all.subrange(0, own.len() as int) =~= Seq::<char>::empty() + own);
            assert(all.subrange(0, own.len() as int)[0] == all[0]);
        }
    }
}

/// Where the thing with the number `k` of a list of documents on new lines
/// starts: behind its line break; for `k` the length of the list, where the
/// closing `end` starts.
pub open spec fn entry_at(
    items: Seq<DocModel>,
    p: int,
    k: int,
    w: nat,
    i: nat,
    f: bool,
    c: nat,
    last: nat,
) -> int {
    if k < items.len() {
        p + before(items, k, w, i, f, c).0.len() + i + 1
    } else {
        p + layout_all(items, w, i, f, c).0.len() + last + 1
    }
}

/// Where the line break before the thing with the number `k` starts.
pub open spec fn break_at(
    items: Seq<DocModel>,
    p: int,
    k: int,
    w: nat,
    i: nat,
    f: bool,
    c: nat,
) -> int {
    if k < items.len() {
        p + before(items, k, w, i, f, c).0.len()
    } else {
        p + layout_all(items, w, i, f, c).0.len()
    }
}

/// Whether, from `from` on, white space with a line feed first leads to
/// something visible at `to`.
pub open spec fn leads(s: Seq<char>, from: int, to: int) -> bool {
    &&& from < to
    &&& run(s, from, CharClass::Space) == to - from
    &&& separator_len(s, from) == to - from
    &&& at(s, from, '\n')
    &&& visible_at(s, to)
}

/// From a line break, the line feed and the white space lead to what is
/// visible behind it.
pub proof fn lemma_leads(s: Seq<char>, q: int, i: nat)
    requires
        holds(s, q, line_break(i)),
        visible_at(s, q + i + 1),
    ensures
        leads(s, q, q + i + 1),
{
    lemma_lands(s, q, i);
}

/// Where a line feed stands, a line ends, and nothing goes on.
pub proof fn lemma_line_feed(s: Seq<char>, q: int)
    requires
        at(s, q, '\n'),
    ensures
        ends_line(s, q),
        ends_value(s, q),
        !at_class(s, q, CharClass::IdentChar),
        !at_class(s, q, CharClass::InlineSpace),
{
}

/// Where `s` holds `end` and a line ends behind it, the word `end` stands
/// there.
pub proof fn lemma_end(s: Seq<char>, q: int)
    requires
        holds(s, q, "end"@),
        ends_line(s, q + 3),
    ensures
        keyword_at(s, q, "end"@),
        visible_at(s, q),
{
    lemma_words();
    lemma_keywords_are_words();
    lemma_keyword(s, q, "end"@);
    lemma_holds_char(s, q, "end"@, 0);
}

/// Where `s` holds a printed item of a block and a line ends behind it,
/// the grammar reads the item there, and all of its text.
pub proof fn lemma_scene_part(
    part: ScenePartModel,
    s: Seq<char>,
    p: int,
    w: nat,
    i: nat,
    f: bool,
    c: nat,
)
    requires
        printable_part(part),
        holds(s, p, laid(spec_print_scene_part(part), w, i, f, c)),
        ends_line(s, p + laid(spec_print_scene_part(part), w, i, f, c).len()),
    ensures
        reads_part(s, p, part, laid(spec_print_scene_part(part), w, i, f, c).len()),
        visible_at(s, p),
    decreases part, 0nat,
{
    lemma_words();
    match part {
        ScenePartModel::SpeakerChangeMarker(marker) => {
            lemma_marker(marker, s, p, w, i, f, c);
        },
        ScenePartModel::Dialogue(parts) => {
            let mark = DocModel::Text("- "@);
            lemma_concat2(mark, spec_print_dialogue(parts), w, i, f, c);
            let first = then(start(c), mark, w, i, f);
            lemma_holds_then(s, p, first, spec_print_dialogue(parts), w, i, f);
            assert(first.0 =~= "- "@);
            lemma_holds_char(s, p, "- "@, 0);
            lemma_line(parts, s, p + 2, w, i, f, first.1);
            lemma_dialogue_step(
                s,
                p,
                parts,
                laid(spec_print_dialogue(parts), w, i, f, first.1).len(),
            );
        },
        ScenePartModel::Narration(parts) => {
            let mark = DocModel::Text("* "@);
            lemma_concat2(mark, spec_print_dialogue(parts), w, i, f, c);
            let first = then(start(c), mark, w, i, f);
            lemma_holds_then(s, p, first, spec_print_dialogue(parts), w, i, f);
            assert(first.0 =~= "* "@);
            lemma_holds_char(s, p, "* "@, 0);
            lemma_line(parts, s, p + 2, w, i, f, first.1);
            lemma_narration_step(
                s,
                p,
                parts,
                laid(spec_print_dialogue(parts), w, i, f, first.1).len(),
            );
        },
        ScenePartModel::Prompt(prompt) => {
            lemma_prompt(prompt, s, p, w, i, f, c);
        },
        ScenePartModel::Expression(e) => {
            let text = laid(spec_print_expression(e), w, i, f, c);
            lemma_expression(e, s, p, w, i, f, c);
            lemma_holds_char(s, p, text, 0);
            lemma_statement_step(s, p, e, text.len());
        },
        ScenePartModel::Comment(t) => {
            let mark = DocModel::Text("--"@);
            lemma_concat2(mark, DocModel::Text(t), w, i, f, c);
            let first = then(start(c), mark, w, i, f);
            lemma_holds_then(s, p, first, DocModel::Text(t), w, i, f);
            assert(first.0 =~= "--"@);
            lemma_holds_char(s, p, "--"@, 0);
            lemma_comment_step(s, p, t);
        },
    }
}

/// Where `s` holds the printed items of a block, each on a new line, and
/// behind them a closing `end` on a line of its own, the items from the
/// `k`th on and the `end` are what the grammar reads where they start, and
/// the line break before them leads there.
pub proof fn lemma_block_from(
    content: Seq<ScenePartModel>,
    s: Seq<char>,
    p: int,
    k: int,
    w: nat,
    i: nat,
    f: bool,
    c: nat,
    last: nat,
)
    requires
        forall|j: int| 0 <= j < content.len() ==> printable_part(#[trigger] content[j]),
        0 <= k <= content.len(),
        holds(s, p, layout_all(spec_print_block(content), w, i, f, c).0),
        holds(
            s,
            p + layout_all(spec_print_block(content), w, i, f, c).0.len(),
            line_break(last),
        ),
        holds(
            s,
            p + layout_all(spec_print_block(content), w, i, f, c).0.len() + last + 1,
            "end"@,
        ),
        ends_line(s, p + layout_all(spec_print_block(content), w, i, f, c).0.len() + last + 4),
    ensures
        entry_at(spec_print_block(content), p, k, w, i, f, c, last) <= p + layout_all(
            spec_print_block(content),
            w,
            i,
            f,
            c,
        ).0.len() + last + 1,
        leads(
            s,
            break_at(spec_print_block(content), p, k, w, i, f, c),
            entry_at(spec_print_block(content), p, k, w, i, f, c, last),
        ),
        reads_block(
            s,
            entry_at(spec_print_block(content), p, k, w, i, f, c, last),
            content.subrange(k, content.len() as int),
            (p + layout_all(spec_print_block(content), w, i, f, c).0.len() + last + 4 - entry_at(
                spec_print_block(content),
                p,
                k,
                w,
                i,
                f,
                c,
                last,
            )) as nat,
        ),
    decreases content, content.len() - k,
{
    let items = spec_print_block(content);
    let all = layout_all(items, w, i, f, c).0;
    let close = p + all.len() + last + 1;
    assert(items.len() == content.len());
    if k == content.len() {
        assert(content.subrange(k, content.len() as int) =~= Seq::<ScenePartModel>::empty());
        lemma_end(s, close);
        lemma_block_end(s, close);
        lemma_leads(s, p + all.len(), last);
    } else {
        let here = before(items, k, w, i, f, c);
        let q = p + here.0.len();
        let part = content[k];
        assert(items.len() == content.len());
        assert(items[k] == DocModel::Concat(
            seq![DocModel::HardLine, spec_print_scene_part(part)],
        ));
        lemma_holds_item(s, p, items, k, w, i, f, c);
        lemma_layout_all_at(items, k, w, i, f, c);
        lemma_on_new_line(spec_print_scene_part(part), w, i, f, here.1);
        let text = laid(spec_print_scene_part(part), w, i, f, i);
        lemma_holds_split(s, q, line_break(i), text);
        lemma_line_break(i);
        let at_part = q + i + 1;
        let next = at_part + text.len();
        lemma_block_from(content, s, p, k + 1, w, i, f, c, last);
        let rest = content.subrange(k + 1, content.len() as int);
        assert(seq![part] + rest =~= content.subrange(k, content.len() as int));
        if k + 1 == content.len() {
            assert(items.subrange(0, k + 1) =~= items);
        }
        assert(next == break_at(items, p, k + 1, w, i, f, c));
        let landing = entry_at(items, p, k + 1, w, i, f, c, last);
        lemma_line_feed(s, next);
        lemma_scene_part(part, s, at_part, w, i, f, i);
        lemma_leads(s, q, i);
        let m = (p + all.len() + last + 4 - landing) as nat;
        lemma_block_more(s, at_part, part, text.len(), (landing - next) as nat, rest, m);
    }
}

/// Where `s` holds a printed option and a line ends behind it, the word
/// `option` stands there, and the grammar reads the option behind it.
pub proof fn lemma_option(
    o: PromptOptionModel,
    s: Seq<char>,
    p: int,
    w: nat,
    i: nat,
    f: bool,
    c: nat,
)
    requires
        printable_option(o),
        holds(s, p, laid(spec_print_option(o), w, i, f, c)),
        ends_line(s, p + laid(spec_print_option(o), w, i, f, c).len()),
    ensures
        laid(spec_print_option(o), w, i, f, c).len() > 6,
        keyword_at(s, p, "option"@),
        reads_option(s, p + 6, o, (laid(spec_print_option(o), w, i, f, c).len() - 6) as nat),
        visible_at(s, p),
    decreases o, 0nat,
{
    let a = DocModel::Text("option "@);
    let b = spec_print_dialogue(o.text);
    let items = spec_print_block(o.content);
    let g = DocModel::Nest(2, Box::new(DocModel::Concat(items)));
    let d = DocModel::HardLine;
    let e = DocModel::Text("end"@);
    reveal_strlit("option ");
    reveal_strlit("option");
    lemma_words();
    lemma_keywords_are_words();
    lemma_concat5(a, b, g, d, e, w, i, f, c);
    let first = then(start(c), a, w, i, f);
    let second = then(first, b, w, i, f);
    let third = then(second, g, w, i, f);
    let fourth = then(third, d, w, i, f);
    lemma_holds_then(s, p, fourth, e, w, i, f);
    lemma_holds_then(s, p, third, d, w, i, f);
    lemma_holds_then(s, p, second, g, w, i, f);
    lemma_holds_then(s, p, first, b, w, i, f);
    lemma_holds_then(s, p, start(c), a, w, i, f);
    assert(first.0 =~= "option "@);
    let label = laid(b, w, i, f, first.1);
    let inner = deeper(i, 2);
    let block = layout_all(items, w, inner, f, second.1).0;
    assert(layout(DocModel::Concat(items), w, inner, f, second.1).0 == block);
    assert(laid(g, w, i, f, second.1) == block);
    let at_label = p + 7;
    let at_block = at_label + label.len();
    assert(items.subrange(0, 0) =~= Seq::<DocModel>::empty());
    lemma_block_from(o.content, s, at_block, 0, w, inner, f, second.1, i);
    assert(o.content.subrange(0, o.content.len() as int) =~= o.content);
    let landing = entry_at(items, at_block, 0, w, inner, f, second.1, i);
    assert(break_at(items, at_block, 0, w, inner, f, second.1) == at_block);
    lemma_line_feed(s, at_block);
    lemma_line(o.text, s, at_label, w, i, f, first.1);
    lemma_holds_char(s, at_label, label, 0);
    assert(s.subrange(p, p + 6) =~= "option"@) by {
        assert forall|j: int| 0 <= j < 6 implies s[p + j] == "option"@[j] by {
            lemma_holds_char(s, p, "option "@, j);
        }
    }
    lemma_holds_char(s, p, "option "@, 6);
    lemma_holds_char(s, p, "option "@, 0);
    lemma_keyword(s, p, "option"@);
    let m = (at_block + block.len() + i + 4 - landing) as nat;
    lemma_option_step(
        s,
        p + 6,
        o.text,
        label.len(),
        (landing - at_block) as nat,
        o.content,
        m,
    );
}

/// Where `s` holds the printed options of a prompt, each on a new line,
/// and behind them a closing `end` on a line of its own, the options from
/// the `k`th on and the `end` are what the grammar reads where they start,
/// and the line break before them leads there.
pub proof fn lemma_options_from(
    options: Seq<PromptOptionModel>,
    s: Seq<char>,
    p: int,
    k: int,
    w: nat,
    i: nat,
    f: bool,
    c: nat,
    last: nat,
)
    requires
        forall|j: int| 0 <= j < options.len() ==> printable_option(#[trigger] options[j]),
        0 <= k <= options.len(),
        holds(s, p, layout_all(spec_print_options(options), w, i, f, c).0),
        holds(
            s,
            p + layout_all(spec_print_options(options), w, i, f, c).0.len(),
            line_break(last),
        ),
        holds(
            s,
            p + layout_all(spec_print_options(options), w, i, f, c).0.len() + last + 1,
            "end"@,
        ),
        ends_line(s, p + layout_all(spec_print_options(options), w, i, f, c).0.len() + last + 4),
    ensures
        entry_at(spec_print_options(options), p, k, w, i, f, c, last) <= p + layout_all(
            spec_print_options(options),
            w,
            i,
            f,
            c,
        ).0.len() + last + 1,
        leads(
            s,
            break_at(spec_print_options(options), p, k, w, i, f, c),
            entry_at(spec_print_options(options), p, k, w, i, f, c, last),
        ),
        reads_options(
            s,
            entry_at(spec_print_options(options), p, k, w, i, f, c, last),
            options.subrange(k, options.len() as int),
            (p + layout_all(spec_print_options(options), w, i, f, c).0.len() + last + 4
                - entry_at(spec_print_options(options), p, k, w, i, f, c, last)) as nat,
        ),
    decreases options, options.len() - k,
{
    let items = spec_print_options(options);
    let all = layout_all(items, w, i, f, c).0;
    let close = p + all.len() + last + 1;
    assert(items.len() == options.len());
    if k == options.len() {
        assert(options.subrange(k, options.len() as int) =~= Seq::<PromptOptionModel>::empty());
        lemma_end(s, close);
        lemma_options_end(s, close);
        lemma_leads(s, p + all.len(), last);
    } else {
        let here = before(items, k, w, i, f, c);
        let q = p + here.0.len();
        let option = options[k];
        assert(items.len() == options.len());
        assert(items[k] == DocModel::Concat(seq![DocModel::HardLine, spec_print_option(option)]));
        lemma_holds_item(s, p, items, k, w, i, f, c);
        lemma_layout_all_at(items, k, w, i, f, c);
        lemma_on_new_line(spec_print_option(option), w, i, f, here.1);
        let text = laid(spec_print_option(option), w, i, f, i);
        lemma_holds_split(s, q, line_break(i), text);
        lemma_line_break(i);
        let at_option = q + i + 1;
        let next = at_option + text.len();
        lemma_options_from(options, s, p, k + 1, w, i, f, c, last);
        let rest = options.subrange(k + 1, options.len() as int);
        assert(seq![option] + rest =~= options.subrange(k, options.len() as int));
        if k + 1 == options.len() {
            assert(items.subrange(0, k + 1) =~= items);
        }
        assert(next == break_at(items, p, k + 1, w, i, f, c));
        let landing = entry_at(items, p, k + 1, w, i, f, c, last);
        lemma_line_feed(s, next);
        lemma_option(option, s, at_option, w, i, f, i);
        lemma_leads(s, q, i);
        let m = (p + all.len() + last + 4 - landing) as nat;
        lemma_options_more(
            s,
            at_option,
            option,
            (text.len() - 6) as nat,
            (landing - next) as nat,
            rest,
            m,
        );
    }
}

/// Where `s` holds a printed prompt and a line ends behind it, the grammar
/// reads the prompt there.
pub proof fn lemma_prompt(
    prompt: PromptModel,
    s: Seq<char>,
    p: int,
    w: nat,
    i: nat,
    f: bool,
    c: nat,
)
    requires
        printable_part(ScenePartModel::Prompt(prompt)),
        holds(s, p, laid(spec_print_scene_part(ScenePartModel::Prompt(prompt)), w, i, f, c)),
        ends_line(
            s,
            p + laid(spec_print_scene_part(ScenePartModel::Prompt(prompt)), w, i, f, c).len(),
        ),
    ensures
        reads_part(
            s,
            p,
            ScenePartModel::Prompt(prompt),
            laid(spec_print_scene_part(ScenePartModel::Prompt(prompt)), w, i, f, c).len(),
        ),
        visible_at(s, p),
    decreases prompt, 0nat,
{
    let a = DocModel::Text("prompt"@);
    let b = spec_print_lead_in(prompt.text);
    let items = spec_print_options(prompt.options);
    let g = DocModel::Nest(2, Box::new(DocModel::Concat(items)));
    let d = DocModel::HardLine;
    let e = DocModel::Text("end"@);
    reveal_strlit(" ");
    lemma_words();
    lemma_keywords_are_words();
    lemma_concat5(a, b, g, d, e, w, i, f, c);
    let first = then(start(c), a, w, i, f);
    let second = then(first, b, w, i, f);
    let third = then(second, g, w, i, f);
    let fourth = then(third, d, w, i, f);
    lemma_holds_then(s, p, fourth, e, w, i, f);
    lemma_holds_then(s, p, third, d, w, i, f);
    lemma_holds_then(s, p, second, g, w, i, f);
    lemma_holds_then(s, p, first, b, w, i, f);
    lemma_holds_then(s, p, start(c), a, w, i, f);
    assert(first.0 =~= "prompt"@);
    let lead = laid(b, w, i, f, first.1);
    let inner = deeper(i, 2);
    let all = layout_all(items, w, inner, f, second.1).0;
    assert(layout(DocModel::Concat(items), w, inner, f, second.1).0 == all);
    assert(laid(g, w, i, f, second.1) == all);
    let at_options = p + 6 + lead.len();
    assert(items.subrange(0, 0) =~= Seq::<DocModel>::empty());
    lemma_options_from(prompt.options, s, at_options, 0, w, inner, f, second.1, i);
    assert(prompt.options.subrange(0, prompt.options.len() as int) =~= prompt.options);
    let landing = entry_at(items, at_options, 0, w, inner, f, second.1, i);
    assert(break_at(items, at_options, 0, w, inner, f, second.1) == at_options);
    lemma_line_feed(s, at_options);
    lemma_holds_char(s, p, "prompt"@, 0);
    let m = (at_options + all.len() + i + 4 - landing) as nat;
    match prompt.text {
        Some(parts) => {
            let space = DocModel::Text(" "@);
            lemma_concat2(space, spec_print_dialogue(parts), w, i, f, first.1);
            let one = then(start(first.1), space, w, i, f);
            lemma_holds_then(s, p + 6, one, spec_print_dialogue(parts), w, i, f);
            assert(one.0 =~= " "@);
            let label = laid(spec_print_dialogue(parts), w, i, f, one.1);
            lemma_holds_char(s, p + 6, " "@, 0);
            lemma_line(parts, s, p + 7, w, i, f, one.1);
            lemma_holds_char(s, p + 7, label, 0);
            lemma_keyword(s, p, "prompt"@);
            lemma_prompt_led(
                s,
                p,
                parts,
                label.len(),
                (landing - at_options) as nat,
                prompt.options,
                m,
            );
        },
        None => {
            assert(lead =~= Seq::<char>::empty());
            lemma_keyword(s, p, "prompt"@);
            lemma_prompt_bare(s, p, (landing - at_options) as nat, prompt.options, m);
        },
    }
}

/// Items with hard lines between them print, behind a line break, as the
/// same items each on a new line.
pub proof fn lemma_joined_block(content: Seq<ScenePartModel>, w: nat, i: nat, f: bool, c: nat)
    requires
        content.len() > 0,
    ensures
        layout_all(spec_print_block(content), w, i, f, c).0 == line_break(i) + layout_all(
            joined(spec_print_scene_parts(content), DocModel::HardLine),
            w,
            i,
            f,
            i,
        ).0,
        layout_all(spec_print_block(content), w, i, f, c).1 == layout_all(
            joined(spec_print_scene_parts(content), DocModel::HardLine),
            w,
            i,
            f,
            i,
        ).1,
    decreases content.len(),
{
    let parts = spec_print_scene_parts(content);
    let block = spec_print_block(content);
    let last = spec_print_scene_part(content.last());
    let entry = DocModel::Concat(seq![DocModel::HardLine, last]);
    let before_parts = spec_print_scene_parts(content.drop_last());
    let before_block = spec_print_block(content.drop_last());
    assert(parts.drop_last() =~= before_parts);
    assert(block =~= before_block.push(entry));
    lemma_layout_push(before_block, entry, w, i, f, c);
    let head = layout_all(before_block, w, i, f, c);
    lemma_on_new_line(last, w, i, f, head.1);
    if content.len() == 1 {
        assert(before_block =~= Seq::<DocModel>::empty());
        assert(joined(parts, DocModel::HardLine) =~= Seq::<DocModel>::empty().push(last));
        lemma_layout_push(Seq::empty(), last, w, i, f, i);
        let own = laid(last, w, i, f, i);
        assert(Seq::<char>::empty() + (line_break(i) + own) =~= line_break(i) + (
            Seq::<char>::empty() + own));
    } else {
        lemma_joined_block(content.drop_last(), w, i, f, c);
        let inner = joined(before_parts, DocModel::HardLine);
        assert(joined(parts, DocModel::HardLine) =~= inner.push(DocModel::HardLine).push(last));
        lemma_layout_push(inner, DocModel::HardLine, w, i, f, i);
        lemma_layout_push(inner.push(DocModel::HardLine), last, w, i, f, i);
        let j = layout_all(inner, w, i, f, i);
        let own = laid(last, w, i, f, i);
        assert((line_break(i) + j.0) + (line_break(i) + own) =~= line_break(i) + ((j.0
            + line_break(i)) + own));
    }
}

/// Two line breaks one after the other lead to what is visible behind
/// them.
pub proof fn lemma_leads_twice(s: Seq<char>, q: int, i: nat, j: nat)
    requires
        holds(s, q, line_break(i)),
        holds(s, q + i + 1, line_break(j)),
        visible_at(s, q + i + j + 2),
    ensures
        leads(s, q, q + i + j + 2),
{
    lemma_line_break(i);
    lemma_line_break(j);
    lemma_holds_char(s, q, line_break(i), 0);
    assert forall|k: int| q < k < q + i + j + 2 implies in_class(
        CharClass::Space,
        #[trigger] s[k],
    ) by {
        if k < q + i + 1 {
            lemma_holds_char(s, q, line_break(i), k - q);
        } else {
            lemma_holds_char(s, q + i + 1, line_break(j), k - q - i - 1);
        }
    }
    lemma_separator(s, q, q + i + j + 2);
}

/// Whether the items of a scene are laid out flat.
pub open spec fn scene_flat(content: Seq<ScenePartModel>, w: nat, i: nat, f: bool) -> bool {
    f || fits(
        DocModel::Concat(joined(spec_print_scene_parts(content), DocModel::HardLine)),
        w,
        deeper(i, 2),
    )
}

/// The text of the items of a scene, with the line breaks between them.
pub open spec fn scene_body(content: Seq<ScenePartModel>, w: nat, i: nat, f: bool) -> Seq<char> {
    layout_all(
        joined(spec_print_scene_parts(content), DocModel::HardLine),
        w,
        deeper(i, 2),
        scene_flat(content, w, i, f),
        deeper(i, 2),
    ).0
}

/// A scene prints as `scene`, its name, a line break, its items, a line
/// break, `end`.
pub proof fn lemma_scene_layout(scene: SceneModel, w: nat, i: nat, f: bool, c: nat)
    ensures
        laid(spec_print_scene(scene), w, i, f, c) == "scene "@ + scene.name + line_break(
            deeper(i, 2),
        ) + scene_body(scene.content, w, i, f) + line_break(i) + "end"@,
{
    let parts = spec_print_scene_parts(scene.content);
    let joint = joined(parts, DocModel::HardLine);
    let group = DocModel::Group(Box::new(DocModel::Concat(joint)));
    let a = DocModel::Text("scene "@);
    let b = DocModel::Text(scene.name);
    let head = DocModel::Concat(seq![a, b, DocModel::HardLine, group]);
    let nest = DocModel::Nest(2, Box::new(head));
    let e = DocModel::Text("end"@);
    let inner = deeper(i, 2);
    lemma_concat3(nest, DocModel::HardLine, e, w, i, f, c);
    assert(laid(nest, w, i, f, c) == laid(head, w, inner, f, c));
    lemma_concat4(a, b, DocModel::HardLine, group, w, inner, f, c);
    let flat = scene_flat(scene.content, w, i, f);
    let body = scene_body(scene.content, w, i, f);
    assert(layout(DocModel::Concat(joint), w, inner, flat, inner).0 == body);
    let h3 = then(
        then(then(start(c), a, w, inner, f), b, w, inner, f),
        DocModel::HardLine,
        w,
        inner,
        f,
    );
    assert(h3.1 == inner);
    assert(laid(group, w, inner, f, h3.1) == body);
    assert(Seq::<char>::empty() + "scene "@ =~= "scene "@);
    assert(Seq::<char>::empty() + laid(head, w, inner, f, c) =~= laid(head, w, inner, f, c));
}

/// Where `s` holds a printed scene and a line ends behind it, the grammar
/// reads the scene there.
pub proof fn lemma_scene(scene: SceneModel, s: Seq<char>, p: int, w: nat, i: nat, f: bool, c: nat)
    requires
        printable_scene(scene),
        holds(s, p, laid(spec_print_scene(scene), w, i, f, c)),
        ends_line(s, p + laid(spec_print_scene(scene), w, i, f, c).len()),
    ensures
        reads_scene(s, p, scene, laid(spec_print_scene(scene), w, i, f, c).len()),
        keyword_at(s, p, "scene"@),
        visible_at(s, p),
        laid(spec_print_scene(scene), w, i, f, c).len() > 0,
{
    let inner = deeper(i, 2);
    let name = scene.name;
    let flat = scene_flat(scene.content, w, i, f);
    let body = scene_body(scene.content, w, i, f);
    reveal_strlit("scene ");
    reveal_strlit("scene");
    lemma_words();
    lemma_keywords_are_words();
    lemma_scene_layout(scene, w, i, f, c);
    let t1 = "scene "@ + name;
    let t2 = t1 + line_break(inner);
    let t3 = t2 + body;
    let t4 = t3 + line_break(i);
    lemma_line_break(inner);
    lemma_line_break(i);
    lemma_holds_split(s, p, t4, "end"@);
    lemma_holds_split(s, p, t3, line_break(i));
    lemma_holds_split(s, p, t2, body);
    lemma_holds_split(s, p, t1, line_break(inner));
    lemma_holds_split(s, p, "scene "@, name);
    let after_name = p + 6 + name.len();
    let at_body = after_name + inner + 1;
    let at_close = at_body + body.len();
    assert(s.subrange(p, p + 5) =~= "scene"@) by {
        assert forall|j: int| 0 <= j < 5 implies s[p + j] == "scene"@[j] by {
            lemma_holds_char(s, p, "scene "@, j);
        }
    }
    lemma_holds_char(s, p, "scene "@, 5);
    lemma_holds_char(s, p, "scene "@, 0);
    lemma_keyword(s, p, "scene"@);
    lemma_holds_char(s, after_name, line_break(inner), 0);
    lemma_line_feed(s, after_name);
    if scene.content.len() == 0 {
        lemma_scene_empty(scene, s, p, w, i, f);
    } else {
        lemma_scene_filled(scene, s, p, w, i, f);
    }
}

/// The scene without items.
pub proof fn lemma_scene_empty(scene: SceneModel, s: Seq<char>, p: int, w: nat, i: nat, f: bool)
    requires
        printable_scene(scene),
        scene.content.len() == 0,
        keyword_at(s, p, "scene"@),
        at(s, p + 5, ' '),
        holds(s, p + 6, scene.name),
        holds(s, p + 6 + scene.name.len(), line_break(deeper(i, 2))),
        holds(s, p + 6 + scene.name.len() + deeper(i, 2) + 1, line_break(i)),
        holds(s, p + 6 + scene.name.len() + deeper(i, 2) + i + 2, "end"@),
        ends_line(s, p + 6 + scene.name.len() + deeper(i, 2) + i + 5),
    ensures
        scene_body(scene.content, w, i, f).len() == 0,
        reads_scene(s, p, scene, 6 + scene.name.len() + deeper(i, 2) + i + 5),
{
    let inner = deeper(i, 2);
    let name = scene.name;
    let after_name = p + 6 + name.len();
    let at_body = after_name + inner + 1;
    let flat = scene_flat(scene.content, w, i, f);
    assert(spec_print_scene_parts(scene.content) =~= Seq::<DocModel>::empty());
    assert(spec_print_block(scene.content) =~= Seq::<DocModel>::empty());
    lemma_layout_none(w, inner, flat, inner);
    assert(s.subrange(at_body, at_body) =~= Seq::<char>::empty());
    assert(holds(s, at_body, Seq::<char>::empty()));
    lemma_block_from(scene.content, s, at_body, 0, w, inner, flat, inner, i);
    assert(scene.content.subrange(0, 0) =~= scene.content);
    let landing = at_body + i + 1;
    lemma_leads_twice(s, after_name, inner, i);
    lemma_line_feed(s, after_name);
    lemma_scene_step(s, p, name, (landing - after_name) as nat, scene.content, 3);
}

/// The scene with items.
pub proof fn lemma_scene_filled(scene: SceneModel, s: Seq<char>, p: int, w: nat, i: nat, f: bool)
    requires
        printable_scene(scene),
        scene.content.len() > 0,
        keyword_at(s, p, "scene"@),
        at(s, p + 5, ' '),
        holds(s, p + 6, scene.name),
        at(s, p + 6 + scene.name.len(), '\n'),
        holds(s, p + 6 + scene.name.len(), line_break(deeper(i, 2))),
        holds(
            s,
            p + 6 + scene.name.len() + deeper(i, 2) + 1,
            scene_body(scene.content, w, i, f),
        ),
        holds(
            s,
            p + 6 + scene.name.len() + deeper(i, 2) + 1 + scene_body(
                scene.content,
                w,
                i,
                f,
            ).len(),
            line_break(i),
        ),
        holds(
            s,
            p + 6 + scene.name.len() + deeper(i, 2) + 1 + scene_body(
                scene.content,
                w,
                i,
                f,
            ).len() + i + 1,
            "end"@,
        ),
        ends_line(
            s,
            p + 6 + scene.name.len() + deeper(i, 2) + 1 + scene_body(
                scene.content,
                w,
                i,
                f,
            ).len() + i + 4,
        ),
    ensures
        reads_scene(
            s,
            p,
            scene,
            6 + scene.name.len() + deeper(i, 2) + 1 + scene_body(scene.content, w, i, f).len()
                + i + 4,
        ),
{
    let inner = deeper(i, 2);
    let name = scene.name;
    let flat = scene_flat(scene.content, w, i, f);
    let body = scene_body(scene.content, w, i, f);
    let after_name = p + 6 + name.len();
    let at_body = after_name + inner + 1;
    let at_close = at_body + body.len();
    lemma_joined_block(scene.content, w, inner, flat, inner);
    let items = spec_print_block(scene.content);
    assert(layout_all(items, w, inner, flat, inner).0 == line_break(inner) + body);
    lemma_line_break(inner);
    assert(s.subrange(after_name, after_name + inner + 1 + body.len()) =~= line_break(inner)
        + body) by {
        assert forall|j: int| 0 <= j < inner + 1 + body.len() implies s[after_name + j] == (
        line_break(inner) + body)[j] by {
            if j < inner + 1 {
                lemma_holds_char(s, after_name, line_break(inner), j);
            } else {
                lemma_holds_char(s, at_body, body, j - inner - 1);
            }
        }
    }
    assert(items.subrange(0, 0) =~= Seq::<DocModel>::empty());
    lemma_block_from(scene.content, s, after_name, 0, w, inner, flat, inner, i);
    assert(scene.content.subrange(0, scene.content.len() as int) =~= scene.content);
    let landing = entry_at(items, after_name, 0, w, inner, flat, inner, i);
    assert(break_at(items, after_name, 0, w, inner, flat, inner) == after_name);
    lemma_line_feed(s, after_name);
    let m = (at_close + i + 4 - landing) as nat;
    lemma_scene_step(s, p, name, (landing - after_name) as nat, scene.content, m);
}

} // verus!
