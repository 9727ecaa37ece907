//! The grammar of scripts and the parser that follows it.
//!
//! `grammar` says, as functions on characters, what each rule yields at a
//! position. The functions of `expression`, `scene` and of this file compute
//! just that. `ast` holds the tree, `scan` the character classes, `error`
//! what a failure says.

pub mod ast;
pub mod equality;
pub mod error;
pub mod expression;
pub mod grammar;
pub mod scan;
pub mod scene;

use vstd::prelude::*;
use vstd::string::StrSliceExecFns;
use crate::parser::ast::{
    fields_list, lemma_scenes_push, Expression, Module, Scene, ScriptPart, ScriptPartModel,
};
use crate::parser::error::{Expected, SyntaxError};
use crate::parser::grammar::{
    after, assemble, lemma_after_end, lemma_after_nothing, lemma_after_one, spec_field,
    spec_let_scene, spec_script, spec_script_parts,
};
use crate::parser::scan::{run, scan, string_to_chars, CharClass};
use crate::parser::scene::{p_field_at, p_scene_def, p_script_part, p_semicolon};
use crate::roundtrip::shape::{fields_yielded, is_identifier, printable_expression};
use crate::roundtrip::yielded_scene::lemma_yields_item;

verus! {

/// Parses a whole script.
///
/// The result is what the grammar's rule for a script yields on the
/// characters of `input`: the script, or the first failure, with the number
/// of characters before it. The fields of the script are held as the
/// grammar yields them: under identifiers, with values that print and read
/// back.
pub fn p_script(input: &str) -> (r: Result<Module, SyntaxError>)
    ensures
        match (r, spec_script(input@)) {
            (Ok(module), Ok(m)) => module@ == m && fields_yielded(fields_list(module.fields@)),
            (Err(e), Err(f)) => e == f,
            _ => false,
        },
{
    let chars = string_to_chars(input);
    let start = scan(&chars, 0, CharClass::Space);
    let mut module = Module::new();
    let mut cur: usize = start;
    let ghost mut done: Seq<ScriptPartModel> = Seq::empty();
    proof {
        lemma_after_nothing(spec_script_parts(chars@, start as int));
    }
    loop
        invariant
            start <= cur <= chars.len(),
            chars@ == input@,
            start == run(input@, 0, CharClass::Space),
            spec_script_parts(chars@, start as int) == after(
                done,
                (cur - start) as nat,
                spec_script_parts(chars@, cur as int),
            ),
            module@ == assemble(done),
            fields_yielded(fields_list(module.fields@)),
        decreases chars.len() - cur,
    {
        if cur >= chars.len() {
            proof {
                lemma_after_end(done, (cur - start) as nat, 0);
            }
            return Ok(module);
        }
        match p_script_part(&chars, cur) {
            Ok((part, end)) => {
                proof {
                    assert(done.push(part@).drop_last() =~= done);
                    lemma_yields_item(chars@, cur as int);
                }
                let ghost before = fields_list(module.fields@);
                match part {
                    ScriptPart::Scene(scene) => {
                        proof {
                            lemma_scenes_push(module.scenes@, scene);
                        }
                        module.scenes.push(scene);
                    },
                    ScriptPart::Comment(_) => {},
                    ScriptPart::Field(name, value) => {
                        module.set_field(name, value);
                        proof {
                            let now = fields_list(module.fields@);
                            assert forall|j: int| 0 <= j < now.len() implies {
                                &&& is_identifier((#[trigger] now[j]).0)
                                &&& printable_expression(now[j].1)
                            } by {
                                if j < now.len() - 1 {
                                    assert(before.contains(now[j]));
                                    let k = choose|k: int|
                                        0 <= k < before.len() && before[k] == now[j];
                                    assert(is_identifier(before[k].0));
                                } else {
                                    assert(now[j] == now.last());
                                }
                            }
                        }
                    },
                }
                assert(module@ == assemble(done.push(part@)));
                let next = p_semicolon(&chars, end);
                if next > end {
                    proof {
                        lemma_after_one(
                            done,
                            (cur - start) as nat,
                            part@,
                            (next - cur) as nat,
                            spec_script_parts(chars@, next as int),
                        );
                        done = done.push(part@);
                    }
                    cur = next;
                } else {
                    let last = scan(&chars, end, CharClass::InlineSpace);
                    if last >= chars.len() {
                        proof {
                            assert(done + seq![part@] =~= done.push(part@));
                        }
                        return Ok(module);
                    } else {
                        return Err(SyntaxError { offset: last, expected: Expected::Separator });
                    }
                }
            },
            Err(e) => {
                return Err(e);
            },
        }
    }
}

/// Parses the scene that `input` starts with, and hands back what follows
/// it.
pub fn p_let_scene<'a>(input: &'a str) -> (r: Result<(&'a str, Scene), SyntaxError>)
    ensures
        match (r, spec_let_scene(input@, 0)) {
            (Ok((rest, scene)), Ok((m, n))) => scene@ == m && n <= input@.len() && rest@
                == input@.subrange(n as int, input@.len() as int),
            (Err(e), Err(f)) => e == f,
            _ => false,
        },
{
    let chars = string_to_chars(input);
    match p_scene_def(&chars, 0) {
        Ok((scene, end)) => Ok((input.substring_char(end, chars.len()), scene)),
        Err(e) => Err(e),
    }
}

/// Parses the field assignment that `input` starts with, and hands back
/// what follows it.
pub fn p_field<'a>(input: &'a str) -> (r: Result<(&'a str, (String, Expression)), SyntaxError>)
    ensures
        match (r, spec_field(input@, 0)) {
            (Ok((rest, (name, value))), Ok(((m, v), n))) => name@ == m && value@ == v && n
                <= input@.len() && rest@ == input@.subrange(n as int, input@.len() as int),
            (Err(e), Err(f)) => e == f,
            _ => false,
        },
{
    let chars = string_to_chars(input);
    match p_field_at(&chars, 0) {
        Ok((field, end)) => Ok((input.substring_char(end, chars.len()), field)),
        Err(e) => Err(e),
    }
}

} // verus!
