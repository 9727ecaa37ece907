use vstd::prelude::*;
use crate::parser::ast::{
    fields_list, fields_model, ExpressionModel, Field, Module, ModuleModel, SceneModel,
    ScriptPartModel,
};
use crate::parser::error::SyntaxError;
use crate::parser::grammar::{
    assemble, keyword_at, separator_len, spec_script, spec_script_part, spec_script_parts,
};
use crate::parser::scan::{at, has_word, run, CharClass};
use crate::roundtrip::expression::lemma_expression;
use crate::roundtrip::scene::{
    leads, lemma_leads, lemma_leads_twice, lemma_line_feed, lemma_scene, visible_at,
};
use crate::roundtrip::scene_steps::{lemma_words, reads_scene};
use crate::roundtrip::shape::{ends_line, is_identifier, printable_expression, printable_scene};
use crate::roundtrip::steps::reads_expression;
use crate::roundtrip::text::{
    before, column_after, holds, laid, lemma_concat2, lemma_concat3, lemma_holds_char,
    lemma_holds_item, lemma_holds_split, lemma_holds_then, lemma_joined_at, lemma_layout_all_at,
    lemma_line_break, start, then,
};
use crate::roundtrip::tokens::{lemma_identifier, lemma_word};
use crate::unparser::{
    blank_line, joined, spec_print_expression, spec_print_field, spec_print_fields,
    spec_print_scene, spec_print_scenes, spec_print_script,
};
use crate::unparser::doc::{layout_all, line_break, spec_render, DocModel};

verus! {

/// Whether the grammar reads the item `part` of a script at `p`, over `n`
/// characters.
#[verifier::opaque]
pub open spec fn reads_item(s: Seq<char>, p: int, part: ScriptPartModel, n: nat) -> bool {
    spec_script_part(s, p) == Ok::<(ScriptPartModel, nat), SyntaxError>((part, n))
}

/// Whether the grammar reads the items `parts` at `p`, up to the end of the
/// input, over `n` characters.
#[verifier::opaque]
pub open spec fn reads_items(s: Seq<char>, p: int, parts: Seq<ScriptPartModel>, n: nat) -> bool {
    spec_script_parts(s, p) == Ok::<(Seq<ScriptPartModel>, nat), SyntaxError>((parts, n))
}

/// At the end of the input there are no items.
pub proof fn lemma_items_none(s: Seq<char>, p: int)
    requires
        p >= s.len(),
    ensures
        reads_items(s, p, Seq::empty(), 0),
{
    reveal(reads_items);
}

/// The last item of a script, which ends with the input.
pub proof fn lemma_items_last(s: Seq<char>, p: int, part: ScriptPartModel, n: nat)
    requires
        reads_item(s, p, part, n),
        p < s.len(),
        p + n >= s.len(),
    ensures
        reads_items(s, p, seq![part], n),
{
    reveal(reads_items);
    reveal(reads_item);
    assert(run(s, p + n, CharClass::InlineSpace) == 0);
}

/// An item of a script, a separator, and the rest of the script.
pub proof fn lemma_items_more(
    s: Seq<char>,
    p: int,
    part: ScriptPartModel,
    n: nat,
    sep: nat,
    rest: Seq<ScriptPartModel>,
    m: nat,
)
    requires
        reads_item(s, p, part, n),
        p < s.len(),
        separator_len(s, p + n) == sep,
        sep > 0,
        reads_items(s, p + n + sep, rest, m),
    ensures
        reads_items(s, p, seq![part] + rest, n + sep + m),
{
    reveal(reads_items);
    reveal(reads_item);
}

/// A scene as an item of a script.
pub proof fn lemma_scene_item(s: Seq<char>, p: int, scene: SceneModel, n: nat)
    requires
        keyword_at(s, p, "scene"@),
        reads_scene(s, p, scene, n),
    ensures
        reads_item(s, p, ScriptPartModel::Scene(scene), n),
{
    reveal(reads_item);
    reveal(reads_scene);
    lemma_words();
    assert(s.subrange(p, p + 5)[0] == "scene"@[0]);
    assert(!has_word(s, p, "--"@)) by {
        if has_word(s, p, "--"@) {
            assert(s.subrange(p, p + 2)[0] == "--"@[0]);
        }
    }
}

/// A field assignment as an item of a script: the name, ` = `, the value.
pub proof fn lemma_field_item(s: Seq<char>, p: int, name: Seq<char>, e: ExpressionModel, n: nat)
    requires
        holds(s, p, name),
        is_identifier(name),
        holds(s, p + name.len(), " = "@),
        visible_at(s, p + name.len() + 3),
        reads_expression(s, p + name.len() + 3, e, n),
    ensures
        reads_item(s, p, ScriptPartModel::Field(name, e), name.len() + 3 + n),
{
    reveal(reads_item);
    reveal(reads_expression);
    reveal_strlit(" = ");
    lemma_words();
    let q = p + name.len();
    lemma_holds_char(s, q, " = "@, 0);
    lemma_holds_char(s, q, " = "@, 1);
    lemma_holds_char(s, q, " = "@, 2);
    lemma_holds_char(s, p, name, 0);
    lemma_identifier(s, p, name);
    lemma_word(s, p, name);
    assert(s.subrange(p, p + name.len()) == name);
    assert(!has_word(s, p, "--"@)) by {
        if has_word(s, p, "--"@) {
            assert(s.subrange(p, p + 2)[0] == "--"@[0]);
        }
    }
    assert(!keyword_at(s, p, "scene"@));
    assert(run(s, q + 1, CharClass::InlineSpace) == 0);
    assert(run(s, q, CharClass::InlineSpace) == 1);
    assert(run(s, q + 3, CharClass::InlineSpace) == 0);
    assert(run(s, q + 2, CharClass::InlineSpace) == 1);
}

/// Where `s` holds a printed field assignment and a line ends behind it,
/// the grammar reads the assignment there.
pub proof fn lemma_field(
    field: (Seq<char>, ExpressionModel),
    s: Seq<char>,
    p: int,
    w: nat,
    i: nat,
    f: bool,
    c: nat,
)
    requires
        is_identifier(field.0),
        printable_expression(field.1),
        holds(s, p, laid(spec_print_field(field), w, i, f, c)),
        ends_line(s, p + laid(spec_print_field(field), w, i, f, c).len()),
    ensures
        reads_item(
            s,
            p,
            ScriptPartModel::Field(field.0, field.1),
            laid(spec_print_field(field), w, i, f, c).len(),
        ),
        visible_at(s, p),
{
    let a = DocModel::Text(field.0);
    let b = DocModel::Text(" = "@);
    let d = spec_print_expression(field.1);
    reveal_strlit(" = ");
    lemma_concat3(a, b, d, w, i, f, c);
    let first = then(start(c), a, w, i, f);
    let second = then(first, b, w, i, f);
    lemma_holds_then(s, p, second, d, w, i, f);
    lemma_holds_then(s, p, first, b, w, i, f);
    lemma_holds_then(s, p, start(c), a, w, i, f);
    assert(first.0 =~= field.0);
    let text = laid(d, w, i, f, second.1);
    let at_value = p + field.0.len() + 3;
    lemma_expression(field.1, s, at_value, w, i, f, second.1);
    lemma_holds_char(s, at_value, text, 0);
    lemma_holds_char(s, p, field.0, 0);
    lemma_field_item(s, p, field.0, field.1, text.len());
}

/// The scenes of a script as items.
pub open spec fn scene_items(scenes: Seq<SceneModel>) -> Seq<ScriptPartModel> {
    Seq::new(scenes.len(), |j: int| ScriptPartModel::Scene(scenes[j]))
}

/// The field assignments of a script as items.
pub open spec fn field_items(fields: Seq<(Seq<char>, ExpressionModel)>) -> Seq<ScriptPartModel> {
    Seq::new(fields.len(), |j: int| ScriptPartModel::Field(fields[j].0, fields[j].1))
}

/// The documents of the scenes of a script, with blank lines between them.
pub open spec fn scenes_docs(scenes: Seq<SceneModel>) -> Seq<DocModel> {
    joined(spec_print_scenes(scenes), blank_line())
}

/// The documents of the fields of a script, with hard lines between them.
pub open spec fn fields_docs(fields: Seq<(Seq<char>, ExpressionModel)>) -> Seq<DocModel> {
    joined(spec_print_fields(fields), DocModel::HardLine)
}

/// A blank line prints as two line breaks.
pub proof fn lemma_blank_line(w: nat, i: nat, f: bool, c: nat)
    ensures
        laid(blank_line(), w, i, f, c) == line_break(i) + line_break(i),
        column_after(blank_line(), w, i, f, c) == i,
{
    lemma_concat2(DocModel::HardLine, DocModel::HardLine, w, i, f, c);
    assert(Seq::<char>::empty() + line_break(i) =~= line_break(i));
}

/// Where `s` holds the printed scenes of a script and ends with them, the
/// scenes from the `k`th on are what the grammar reads where they start.
pub proof fn lemma_scenes_from(
    scenes: Seq<SceneModel>,
    s: Seq<char>,
    p: int,
    k: int,
    w: nat,
    i: nat,
    f: bool,
    c: nat,
)
    requires
        forall|j: int| 0 <= j < scenes.len() ==> printable_scene(#[trigger] scenes[j]),
        0 <= k < scenes.len(),
        holds(s, p, layout_all(scenes_docs(scenes), w, i, f, c).0),
        p + layout_all(scenes_docs(scenes), w, i, f, c).0.len() == s.len(),
    ensures
        p + before(scenes_docs(scenes), 2 * k, w, i, f, c).0.len() < s.len(),
        visible_at(s, p + before(scenes_docs(scenes), 2 * k, w, i, f, c).0.len()),
        reads_items(
            s,
            p + before(scenes_docs(scenes), 2 * k, w, i, f, c).0.len(),
            scene_items(scenes).subrange(k, scenes.len() as int),
            (s.len() - (p + before(scenes_docs(scenes), 2 * k, w, i, f, c).0.len())) as nat,
        ),
    decreases scenes.len() - k,
{
    let printed = spec_print_scenes(scenes);
    let items = scenes_docs(scenes);
    let all = layout_all(items, w, i, f, c).0;
    lemma_joined_at(printed, blank_line());
    let here = before(items, 2 * k, w, i, f, c);
    let q = p + here.0.len();
    let scene = scenes[k];
    assert(items[2 * k] == spec_print_scene(scene)) by {
        assert(items[2 * k] == printed[k]);
    }
    lemma_holds_item(s, p, items, 2 * k, w, i, f, c);
    lemma_layout_all_at(items, 2 * k, w, i, f, c);
    let text = laid(spec_print_scene(scene), w, i, f, here.1);
    let end = q + text.len();
    let part = ScriptPartModel::Scene(scene);
    if k + 1 < scenes.len() {
        let gap = before(items, 2 * k + 1, w, i, f, c);
        lemma_holds_item(s, p, items, 2 * k + 1, w, i, f, c);
        lemma_layout_all_at(items, 2 * k + 1, w, i, f, c);
        assert(items[2 * k + 1] == blank_line());
        lemma_blank_line(w, i, f, gap.1);
        lemma_holds_split(s, end, line_break(i), line_break(i));
        lemma_line_break(i);
        lemma_scenes_from(scenes, s, p, k + 1, w, i, f, c);
        let next = end + 2 * i + 2;
        assert(next == p + before(items, 2 * (k + 1), w, i, f, c).0.len());
        lemma_leads_twice(s, end, i, i);
        lemma_line_feed(s, end);
        lemma_scene(scene, s, q, w, i, f, here.1);
        lemma_scene_item(s, q, scene, text.len());
        let rest = scene_items(scenes).subrange(k + 1, scenes.len() as int);
        assert(seq![part] + rest =~= scene_items(scenes).subrange(k, scenes.len() as int));
        lemma_items_more(
            s,
            q,
            part,
            text.len(),
            (2 * i + 2) as nat,
            rest,
            (s.len() - next) as nat,
        );
    } else {
        assert(items.subrange(0, 2 * k + 1) =~= items);
        lemma_scene(scene, s, q, w, i, f, here.1);
        lemma_scene_item(s, q, scene, text.len());
        assert(seq![part] =~= scene_items(scenes).subrange(k, scenes.len() as int));
        lemma_items_last(s, q, part, text.len());
    }
}

/// Where the items behind the field assignments of a script start, if
/// there are any: they are `rest`, read at `rest_at`, where the white space
/// behind the assignments leads.
pub open spec fn follows(
    s: Seq<char>,
    end: int,
    rest: Seq<ScriptPartModel>,
    rest_at: int,
) -> bool {
    if rest.len() == 0 {
        end == s.len() && rest_at == end
    } else {
        leads(s, end, rest_at) && rest_at <= s.len() && reads_items(
            s,
            rest_at,
            rest,
            (s.len() - rest_at) as nat,
        )
    }
}

/// Where `s` holds the printed field assignments of a script, and behind
/// them the rest of its items, the assignments from the `k`th on and the
/// rest are what the grammar reads where they start.
pub proof fn lemma_fields_from(
    fields: Seq<(Seq<char>, ExpressionModel)>,
    s: Seq<char>,
    p: int,
    k: int,
    w: nat,
    i: nat,
    f: bool,
    c: nat,
    rest: Seq<ScriptPartModel>,
    rest_at: int,
)
    requires
        forall|j: int|
            0 <= j < fields.len() ==> is_identifier((#[trigger] fields[j]).0)
                && printable_expression(fields[j].1),
        0 <= k < fields.len(),
        holds(s, p, layout_all(fields_docs(fields), w, i, f, c).0),
        follows(s, p + layout_all(fields_docs(fields), w, i, f, c).0.len(), rest, rest_at),
    ensures
        p + before(fields_docs(fields), 2 * k, w, i, f, c).0.len() < s.len(),
        visible_at(s, p + before(fields_docs(fields), 2 * k, w, i, f, c).0.len()),
        reads_items(
            s,
            p + before(fields_docs(fields), 2 * k, w, i, f, c).0.len(),
            field_items(fields).subrange(k, fields.len() as int) + rest,
            (s.len() - (p + before(fields_docs(fields), 2 * k, w, i, f, c).0.len())) as nat,
        ),
    decreases fields.len() - k,
{
    let printed = spec_print_fields(fields);
    let items = fields_docs(fields);
    let all = layout_all(items, w, i, f, c).0;
    lemma_joined_at(printed, DocModel::HardLine);
    let here = before(items, 2 * k, w, i, f, c);
    let q = p + here.0.len();
    let field = fields[k];
    assert(items[2 * k] == spec_print_field(field)) by {
        assert(items[2 * k] == printed[k]);
    }
    lemma_holds_item(s, p, items, 2 * k, w, i, f, c);
    lemma_layout_all_at(items, 2 * k, w, i, f, c);
    let text = laid(spec_print_field(field), w, i, f, here.1);
    let end = q + text.len();
    let part = ScriptPartModel::Field(field.0, field.1);
    let own = field_items(fields).subrange(k, fields.len() as int);
    if k + 1 < fields.len() {
        let gap = before(items, 2 * k + 1, w, i, f, c);
        lemma_holds_item(s, p, items, 2 * k + 1, w, i, f, c);
        lemma_layout_all_at(items, 2 * k + 1, w, i, f, c);
        assert(items[2 * k + 1] == DocModel::HardLine);
        lemma_line_break(i);
        lemma_fields_from(fields, s, p, k + 1, w, i, f, c, rest, rest_at);
        let next = end + i + 1;
        assert(next == p + before(items, 2 * (k + 1), w, i, f, c).0.len());
        lemma_leads(s, end, i);
        lemma_line_feed(s, end);
        lemma_field(field, s, q, w, i, f, here.1);
        let more = field_items(fields).subrange(k + 1, fields.len() as int) + rest;
        assert(seq![part] + more =~= own + rest);
        lemma_items_more(s, q, part, text.len(), (i + 1) as nat, more, (s.len() - next) as nat);
    } else {
        assert(items.subrange(0, 2 * k + 1) =~= items);
        assert(seq![part] =~= own);
        if rest.len() == 0 {
            lemma_field(field, s, q, w, i, f, here.1);
            assert(own + rest =~= seq![part]);
            lemma_items_last(s, q, part, text.len());
        } else {
            lemma_line_feed(s, end);
            lemma_field(field, s, q, w, i, f, here.1);
            assert(seq![part] + rest =~= own + rest);
            lemma_items_more(
                s,
                q,
                part,
                text.len(),
                (rest_at - end) as nat,
                rest,
                (s.len() - rest_at) as nat,
            );
        }
    }
}

/// The map that a list of assignments stands for: a later assignment to a
/// name replaces an earlier one.
pub open spec fn map_of(fields: Seq<(Seq<char>, ExpressionModel)>) -> Map<
    Seq<char>,
    ExpressionModel,
>
    decreases fields.len(),
{
    if fields.len() == 0 {
        Map::empty()
    } else {
        map_of(fields.drop_last()).insert(fields.last().0, fields.last().1)
    }
}

/// The fields of a script are the map of their list.
pub proof fn lemma_fields_are_map(v: Seq<Field>)
    ensures
        fields_model(v) == map_of(fields_list(v)),
    decreases v.len(),
{
    if v.len() > 0 {
        lemma_fields_are_map(v.drop_last());
        assert(fields_list(v).drop_last() =~= fields_list(v.drop_last()));
    } else {
        assert(fields_list(v).len() == 0);
    }
}

/// Field assignments alone make a script without scenes, with the map of
/// the assignments.
pub proof fn lemma_assemble_fields(fields: Seq<(Seq<char>, ExpressionModel)>)
    ensures
        assemble(field_items(fields)) == (ModuleModel {
            scenes: Seq::empty(),
            fields: map_of(fields),
        }),
    decreases fields.len(),
{
    if fields.len() > 0 {
        lemma_assemble_fields(fields.drop_last());
        assert(field_items(fields).drop_last() =~= field_items(fields.drop_last()));
    }
}

/// Scenes behind other items add to the scenes that these make, and leave
/// the fields.
pub proof fn lemma_assemble_scenes(before: Seq<ScriptPartModel>, scenes: Seq<SceneModel>)
    ensures
        assemble(before + scene_items(scenes)) == (ModuleModel {
            scenes: assemble(before).scenes + scenes,
            fields: assemble(before).fields,
        }),
    decreases scenes.len(),
{
    if scenes.len() == 0 {
        assert(before + scene_items(scenes) =~= before);
        assert(assemble(before).scenes + scenes =~= assemble(before).scenes);
    } else {
        lemma_assemble_scenes(before, scenes.drop_last());
        assert((before + scene_items(scenes)).drop_last() =~= before + scene_items(
            scenes.drop_last(),
        ));
        assert((before + scene_items(scenes)).last() == ScriptPartModel::Scene(scenes.last()));
        assert((assemble(before).scenes + scenes.drop_last()).push(scenes.last()) =~= assemble(
            before,
        ).scenes + scenes);
    }
}

/// Whether a script is one that reads back from its printed form: its
/// scenes are, and its fields have identifiers for names and values that
/// the grammar yields.
pub open spec fn printable_script(
    scenes: Seq<SceneModel>,
    fields: Seq<(Seq<char>, ExpressionModel)>,
) -> bool {
    &&& forall|j: int| 0 <= j < scenes.len() ==> printable_scene(#[trigger] scenes[j])
    &&& forall|j: int|
        0 <= j < fields.len() ==> is_identifier((#[trigger] fields[j]).0) && printable_expression(
            fields[j].1,
        )
}

/// The items of the printed form of a script: the grammar reads them from
/// the start of the text to its end.
pub proof fn lemma_script_items(
    scenes: Seq<SceneModel>,
    fields: Seq<(Seq<char>, ExpressionModel)>,
    w: nat,
)
    requires
        printable_script(scenes, fields),
    ensures
        reads_items(
            spec_render(spec_print_script(scenes, fields), w),
            0,
            field_items(fields) + scene_items(scenes),
            spec_render(spec_print_script(scenes, fields), w).len(),
        ),
        run(spec_render(spec_print_script(scenes, fields), w), 0, CharClass::Space) == 0,
{
    let s = spec_render(spec_print_script(scenes, fields), w);
    let a = DocModel::Concat(fields_docs(fields));
    let b = if fields.len() > 0 && scenes.len() > 0 {
        blank_line()
    } else {
        DocModel::Nil
    };
    let d = DocModel::Concat(scenes_docs(scenes));
    lemma_concat3(a, b, d, w, 0, false, 0);
    let first = then(start(0), a, w, 0, false);
    let second = then(first, b, w, 0, false);
    let third = then(second, d, w, 0, false);
    assert(s == third.0);
    assert(s.subrange(0, s.len() as int) =~= s);
    assert(holds(s, 0, third.0));
    lemma_holds_then(s, 0, second, d, w, 0, false);
    lemma_holds_then(s, 0, first, b, w, 0, false);
    lemma_holds_then(s, 0, start(0), a, w, 0, false);
    let tf = layout_all(fields_docs(fields), w, 0, false, 0).0;
    assert(first.0 =~= tf);
    let gap = laid(b, w, 0, false, first.1);
    let ts = layout_all(scenes_docs(scenes), w, 0, false, second.1).0;
    assert(laid(d, w, 0, false, second.1) == ts);
    let at_scenes = tf.len() + gap.len();
    let items = field_items(fields) + scene_items(scenes);
    if scenes.len() == 0 {
        assert(spec_print_scenes(scenes) =~= Seq::<DocModel>::empty());
        assert(ts =~= Seq::<char>::empty());
        assert(gap =~= Seq::<char>::empty());
        assert(items =~= field_items(fields) + Seq::<ScriptPartModel>::empty());
        if fields.len() == 0 {
            assert(spec_print_fields(fields) =~= Seq::<DocModel>::empty());
            assert(tf =~= Seq::<char>::empty());
            assert(items =~= Seq::<ScriptPartModel>::empty());
            lemma_items_none(s, 0);
        } else {
            assert(fields_docs(fields).subrange(0, 0) =~= Seq::<DocModel>::empty());
            lemma_fields_from(fields, s, 0, 0, w, 0, false, 0, Seq::empty(), tf.len() as int);
            assert(field_items(fields).subrange(0, fields.len() as int) =~= field_items(fields));
        }
    } else {
        assert(scenes_docs(scenes).subrange(0, 0) =~= Seq::<DocModel>::empty());
        lemma_scenes_from(scenes, s, at_scenes as int, 0, w, 0, false, second.1);
        assert(scene_items(scenes).subrange(0, scenes.len() as int) =~= scene_items(scenes));
        if fields.len() == 0 {
            assert(spec_print_fields(fields) =~= Seq::<DocModel>::empty());
            assert(tf =~= Seq::<char>::empty());
            assert(gap =~= Seq::<char>::empty());
            assert(items =~= scene_items(scenes));
        } else {
            lemma_blank_line(w, 0, false, first.1);
            lemma_holds_split(s, tf.len() as int, line_break(0), line_break(0));
            lemma_line_break(0);
            lemma_leads_twice(s, tf.len() as int, 0, 0);
            assert(fields_docs(fields).subrange(0, 0) =~= Seq::<DocModel>::empty());
            lemma_fields_from(
                fields,
                s,
                0,
                0,
                w,
                0,
                false,
                0,
                scene_items(scenes),
                at_scenes as int,
            );
            assert(field_items(fields).subrange(0, fields.len() as int) =~= field_items(fields));
        }
    }
}

/// Round trip: a script that the grammar yields, printed and laid out for
/// lines of any width, reads back as the same script.
pub proof fn lemma_script_round_trip(
    scenes: Seq<SceneModel>,
    fields: Seq<(Seq<char>, ExpressionModel)>,
    w: nat,
)
    requires
        printable_script(scenes, fields),
    ensures
        spec_script(spec_render(spec_print_script(scenes, fields), w)) == Ok::<
            ModuleModel,
            SyntaxError,
        >(ModuleModel { scenes, fields: map_of(fields) }),
{
    reveal(reads_items);
    lemma_script_items(scenes, fields, w);
    lemma_assemble_fields(fields);
    lemma_assemble_scenes(field_items(fields), scenes);
    assert(Seq::<SceneModel>::empty() + scenes =~= scenes);
}

/// Whether a script value is one that reads back from its printed form.
pub open spec fn printable_module(m: Module) -> bool {
    printable_script(m@.scenes, fields_list(m.fields@))
}

/// Round trip: a script value that the grammar yields, printed and laid
/// out, reads back as a script of the same value.
pub proof fn lemma_round_trip(m: Module, w: nat)
    requires
        printable_module(m),
    ensures
        spec_script(spec_render(spec_print_script(m@.scenes, fields_list(m.fields@)), w)) == Ok::<
            ModuleModel,
            SyntaxError,
        >(m@),
{
    lemma_script_round_trip(m@.scenes, fields_list(m.fields@), w);
    lemma_fields_are_map(m.fields@);
}

} // verus!
