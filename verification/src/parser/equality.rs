use vstd::prelude::*;
use crate::parser::ast::{
    assigns, expressions_model, lemma_fields_domain, options_model, scene_parts_model, scenes_model,
    strings_view, text_parts_model, Expression, Module, PromptOption, Scene, ScenePart, TextPart,
};

verus! {

/// Whether two lists hold the same strings in the same order.
pub fn same_strings(a: &Vec<String>, b: &Vec<String>) -> (r: bool)
    ensures
        r == (strings_view(a@) == strings_view(b@)),
{
    if a.len() != b.len() {
        assert(strings_view(a@).len() != strings_view(b@).len());
        return false;
    }
    let mut i: usize = 0;
    while i < a.len()
        invariant
            i <= a.len(),
            a.len() == b.len(),
            forall|j: int| 0 <= j < i ==> a@[j]@ == b@[j]@,
        decreases a.len() - i,
    {
        if a[i] != b[i] {
            assert(strings_view(a@)[i as int] != strings_view(b@)[i as int]);
            return false;
        }
        i += 1;
    }
    assert(strings_view(a@) =~= strings_view(b@));
    true
}

/// Whether two expressions are the same tree.
pub fn same_expression(a: &Expression, b: &Expression) -> (r: bool)
    ensures
        r == (a@ == b@),
    decreases a,
{
    match (a, b) {
        (
            Expression::Call { name: name_a, args: args_a },
            Expression::Call { name: name_b, args: args_b },
        ) => *name_a == *name_b && same_expressions(args_a, args_b),
        (Expression::Unit(inner_a, unit_a), Expression::Unit(inner_b, unit_b)) => {
            same_expression(inner_a, inner_b) && *unit_a == *unit_b
        },
        (Expression::Int(x), Expression::Int(y)) => *x == *y,
        (Expression::Float(x), Expression::Float(y)) => *x == *y,
        (Expression::Boolean(x), Expression::Boolean(y)) => *x == *y,
        (Expression::Text(x), Expression::Text(y)) => same_text(x, y),
        (Expression::Symbol(x), Expression::Symbol(y)) => same_strings(&x.path, &y.path),
        _ => false,
    }
}

/// Whether two lists hold the same expressions in the same order.
pub fn same_expressions(a: &Vec<Expression>, b: &Vec<Expression>) -> (r: bool)
    ensures
        r == (expressions_model(a@) == expressions_model(b@)),
    decreases a,
{
    if a.len() != b.len() {
        assert(expressions_model(a@).len() != expressions_model(b@).len());
        return false;
    }
    let mut i: usize = 0;
    while i < a.len()
        invariant
            i <= a.len(),
            a.len() == b.len(),
            forall|j: int| 0 <= j < i ==> a@[j]@ == b@[j]@,
        decreases a.len() - i,
    {
        if !same_expression(&a[i], &b[i]) {
            assert(expressions_model(a@)[i as int] != expressions_model(b@)[i as int]);
            return false;
        }
        i += 1;
    }
    assert(expressions_model(a@) =~= expressions_model(b@));
    true
}

/// Whether two parts of a text are the same.
pub fn same_text_part(a: &TextPart, b: &TextPart) -> (r: bool)
    ensures
        r == (a@ == b@),
    decreases a,
{
    match (a, b) {
        (TextPart::Text(x), TextPart::Text(y)) => *x == *y,
        (TextPart::Expression(x), TextPart::Expression(y)) => same_expression(x, y),
        _ => false,
    }
}

/// Whether two texts hold the same parts in the same order.
pub fn same_text(a: &Vec<TextPart>, b: &Vec<TextPart>) -> (r: bool)
    ensures
        r == (text_parts_model(a@) == text_parts_model(b@)),
    decreases a,
{
    if a.len() != b.len() {
        assert(text_parts_model(a@).len() != text_parts_model(b@).len());
        return false;
    }
    let mut i: usize = 0;
    while i < a.len()
        invariant
            i <= a.len(),
            a.len() == b.len(),
            forall|j: int| 0 <= j < i ==> a@[j]@ == b@[j]@,
        decreases a.len() - i,
    {
        if !same_text_part(&a[i], &b[i]) {
            assert(text_parts_model(a@)[i as int] != text_parts_model(b@)[i as int]);
            return false;
        }
        i += 1;
    }
    assert(text_parts_model(a@) =~= text_parts_model(b@));
    true
}

/// Whether two items of a block are the same tree.
pub fn same_scene_part(a: &ScenePart, b: &ScenePart) -> (r: bool)
    ensures
        r == (a@ == b@),
    decreases a,
{
    match (a, b) {
        (ScenePart::SpeakerChangeMarker(x), ScenePart::SpeakerChangeMarker(y)) => {
            x.speaker_id == y.speaker_id && same_strings(&x.modifiers, &y.modifiers)
        },
        (ScenePart::Dialogue(x), ScenePart::Dialogue(y)) => same_text(&x.parts, &y.parts),
        (ScenePart::Narration(x), ScenePart::Narration(y)) => same_text(&x.parts, &y.parts),
        (ScenePart::Prompt(x), ScenePart::Prompt(y)) => {
            let same_lead_in = match (&x.text, &y.text) {
                (Some(s), Some(t)) => same_text(s, t),
                (None, None) => true,
                _ => false,
            };
            same_lead_in && same_options(&x.options, &y.options)
        },
        (ScenePart::Expression(x), ScenePart::Expression(y)) => same_expression(x, y),
        (ScenePart::Comment(x), ScenePart::Comment(y)) => *x == *y,
        _ => false,
    }
}

/// Whether two blocks hold the same items in the same order.
pub fn same_scene_parts(a: &Vec<ScenePart>, b: &Vec<ScenePart>) -> (r: bool)
    ensures
        r == (scene_parts_model(a@) == scene_parts_model(b@)),
    decreases a,
{
    if a.len() != b.len() {
        assert(scene_parts_model(a@).len() != scene_parts_model(b@).len());
        return false;
    }
    let mut i: usize = 0;
    while i < a.len()
        invariant
            i <= a.len(),
            a.len() == b.len(),
            forall|j: int| 0 <= j < i ==> a@[j]@ == b@[j]@,
        decreases a.len() - i,
    {
        if !same_scene_part(&a[i], &b[i]) {
            assert(scene_parts_model(a@)[i as int] != scene_parts_model(b@)[i as int]);
            return false;
        }
        i += 1;
    }
    assert(scene_parts_model(a@) =~= scene_parts_model(b@));
    true
}

/// Whether two options are the same tree.
pub fn same_option(a: &PromptOption, b: &PromptOption) -> (r: bool)
    ensures
        r == (a@ == b@),
    decreases a,
{
    same_text(&a.text, &b.text) && same_scene_parts(&a.content, &b.content)
}

/// Whether two lists hold the same options in the same order.
pub fn same_options(a: &Vec<PromptOption>, b: &Vec<PromptOption>) -> (r: bool)
    ensures
        r == (options_model(a@) == options_model(b@)),
    decreases a,
{
    if a.len() != b.len() {
        assert(options_model(a@).len() != options_model(b@).len());
        return false;
    }
    let mut i: usize = 0;
    while i < a.len()
        invariant
            i <= a.len(),
            a.len() == b.len(),
            forall|j: int| 0 <= j < i ==> a@[j]@ == b@[j]@,
        decreases a.len() - i,
    {
        if !same_option(&a[i], &b[i]) {
            assert(options_model(a@)[i as int] != options_model(b@)[i as int]);
            return false;
        }
        i += 1;
    }
    assert(options_model(a@) =~= options_model(b@));
    true
}

/// Whether two scenes are the same: in name and in content.
pub fn same_scene(a: &Scene, b: &Scene) -> (r: bool)
    ensures
        r == (a@ == b@),
{
    a.name == b.name && same_scene_parts(&a.content, &b.content)
}

/// Whether two lists hold the same scenes in the same order.
pub fn same_scenes(a: &Vec<Scene>, b: &Vec<Scene>) -> (r: bool)
    ensures
        r == (scenes_model(a@) == scenes_model(b@)),
{
    if a.len() != b.len() {
        assert(scenes_model(a@).len() != scenes_model(b@).len());
        return false;
    }
    let mut i: usize = 0;
    while i < a.len()
        invariant
            i <= a.len(),
            a.len() == b.len(),
            forall|j: int| 0 <= j < i ==> a@[j]@ == b@[j]@,
        decreases a.len() - i,
    {
        if !same_scene(&a[i], &b[i]) {
            assert(scenes_model(a@)[i as int] != scenes_model(b@)[i as int]);
            return false;
        }
        i += 1;
    }
    assert(scenes_model(a@) =~= scenes_model(b@));
    true
}

/// Whether every name that `a` assigns to has the same value in `b`.
pub fn fields_within(a: &Module, b: &Module) -> (r: bool)
    ensures
        r == (forall|name: Seq<char>| #[trigger]
            a@.fields.dom().contains(name) ==> b@.fields.dom().contains(name) && b@.fields[name]
                == a@.fields[name]),
{
    let mut i: usize = 0;
    while i < a.fields.len()
        invariant
            i <= a.fields.len(),
            forall|j: int|
                0 <= j < i ==> b@.fields.dom().contains(#[trigger] a.fields@[j].name@)
                    && b@.fields[a.fields@[j].name@] == a@.fields[a.fields@[j].name@],
        decreases a.fields.len() - i,
    {
        let name = a.fields[i].name.as_str();
        proof {
            lemma_fields_domain(a.fields@, name@);
            assert(a.fields@[i as int].name@ == name@);
        }
        let same = match (a.field(name), b.field(name)) {
            (Some(x), Some(y)) => same_expression(x, y),
            _ => false,
        };
        if !same {
            assert(a@.fields.dom().contains(name@));
            return false;
        }
        i += 1;
    }
    proof {
        assert forall|name: Seq<char>| #[trigger]
            a@.fields.dom().contains(name) implies b@.fields.dom().contains(name)
            && b@.fields[name] == a@.fields[name] by {
            lemma_fields_domain(a.fields@, name);
            let j = choose|j: int| 0 <= j < a.fields@.len() && #[trigger] a.fields@[j].name@ == name;
            assert(b@.fields.dom().contains(a.fields@[j].name@));
        }
    }
    true
}

impl Module {
    /// Whether two scripts are the same: they have the same scenes in the
    /// same order, and the same fields with the same values, in whatever
    /// order these were assigned.
    pub fn same_as(&self, other: &Module) -> (r: bool)
        ensures
            r == (self@ == other@),
    {
        if !same_scenes(&self.scenes, &other.scenes) {
            return false;
        }
        let within = fields_within(self, other) && fields_within(other, self);
        proof {
            if within {
                assert(self@.fields =~= other@.fields);
            }
        }
        within
    }
}

impl PartialEq for Module {
    fn eq(&self, other: &Module) -> (r: bool) {
        self.same_as(other)
    }
}

impl vstd::std_specs::cmp::PartialEqSpecImpl for Module {
    open spec fn obeys_eq_spec() -> bool {
        true
    }

    open spec fn eq_spec(&self, other: &Module) -> bool {
        self@ == other@
    }
}

} // verus!
