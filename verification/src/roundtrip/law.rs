use vstd::prelude::*;
use crate::parser::ast::{fields_list, Module, ModuleModel, ScriptPartModel};
use crate::parser::error::SyntaxError;
use crate::parser::grammar::{assemble, spec_script, spec_script_parts};
use crate::parser::scan::{run, CharClass};
use crate::roundtrip::script::{lemma_round_trip, printable_module};
use crate::roundtrip::shape::{fields_yielded, plain_scene, plain_script, printable_scene};
use crate::roundtrip::yielded_scene::{item_ok, lemma_yields_items};
use crate::unparser::spec_print_script;
use crate::unparser::doc::spec_render;

verus! {

/// The scenes of a script made of items that print and read back do so
/// too, where their comments do.
pub proof fn lemma_assembled_scenes(parts: Seq<ScriptPartModel>)
    requires
        forall|j: int| 0 <= j < parts.len() ==> item_ok(#[trigger] parts[j]),
    ensures
        forall|j: int|
            0 <= j < assemble(parts).scenes.len() && plain_scene(
                #[trigger] assemble(parts).scenes[j],
            ) ==> printable_scene(assemble(parts).scenes[j]),
    decreases parts.len(),
{
    if parts.len() > 0 {
        let before = parts.drop_last();
        assert forall|j: int| 0 <= j < before.len() implies item_ok(#[trigger] before[j]) by {
            assert(before[j] == parts[j]);
        }
        lemma_assembled_scenes(before);
        assert(item_ok(parts[parts.len() - 1]));
        let scenes = assemble(parts).scenes;
        assert forall|j: int| 0 <= j < scenes.len() && plain_scene(
            #[trigger] scenes[j],
        ) implies printable_scene(scenes[j]) by {
            if j < assemble(before).scenes.len() {
                assert(scenes[j] == assemble(before).scenes[j]);
            }
        }
    }
}

/// The scenes of a script that the grammar yields print and read back,
/// where their comments do.
pub proof fn lemma_yields_scenes(s: Seq<char>, m: ModuleModel)
    requires
        spec_script(s) == Ok::<ModuleModel, SyntaxError>(m),
    ensures
        forall|j: int|
            0 <= j < m.scenes.len() && plain_scene(#[trigger] m.scenes[j]) ==> printable_scene(
                m.scenes[j],
            ),
{
    let start = run(s, 0, CharClass::Space) as int;
    lemma_yields_items(s, start);
    match spec_script_parts(s, start) {
        Ok((parts, _)) => {
            lemma_assembled_scenes(parts);
        },
        Err(_) => {},
    }
}

/// Round trip: where parsing a text gives a script whose comments read
/// back from their printed form, the script printed and laid out, for
/// lines of any width, parses as the same script.
///
/// `m` is the script as `p_script` gives it for the text `s`: of the value
/// that the grammar yields, with the fields as the grammar yields them.
pub proof fn lemma_parse_print_parse(s: Seq<char>, m: Module, w: nat)
    requires
        spec_script(s) == Ok::<ModuleModel, SyntaxError>(m@),
        fields_yielded(fields_list(m.fields@)),
        plain_script(m@.scenes),
    ensures
        spec_script(spec_render(spec_print_script(m@.scenes, fields_list(m.fields@)), w))
            == spec_script(s),
{
    lemma_yields_scenes(s, m@);
    assert(printable_module(m)) by {
        assert forall|j: int| 0 <= j < m@.scenes.len() implies printable_scene(
            #[trigger] m@.scenes[j],
        ) by {
            assert(plain_scene(m@.scenes[j]));
        }
    }
    lemma_round_trip(m, w);
}

} // verus!
