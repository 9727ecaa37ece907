use vstd::prelude::*;

verus! {

/// Mathematical value of an [`Expression`].
pub enum ExpressionModel {
    Call { name: Seq<char>, args: Seq<ExpressionModel> },
    Unit(Box<ExpressionModel>, Seq<char>),
    Int(int),
    Float(Seq<char>),
    Boolean(bool),
    Text(Seq<TextPartModel>),
    Symbol(Seq<Seq<char>>),
}

/// Mathematical value of a [`TextPart`].
pub enum TextPartModel {
    Text(Seq<char>),
    Expression(ExpressionModel),
}

/// Mathematical value of a [`PromptOption`].
pub struct PromptOptionModel {
    pub text: Seq<TextPartModel>,
    pub content: Seq<ScenePartModel>,
}

/// Mathematical value of a [`ScenePart`].
pub enum ScenePartModel {
    SpeakerChangeMarker(SpeakerChangeMarkerModel),
    Dialogue(Seq<TextPartModel>),
    Narration(Seq<TextPartModel>),
    Prompt(PromptModel),
    Expression(ExpressionModel),
    Comment(Seq<char>),
}

/// Mathematical value of a [`SpeakerChangeMarker`].
pub struct SpeakerChangeMarkerModel {
    pub speaker_id: Seq<char>,
    pub modifiers: Seq<Seq<char>>,
}

/// Mathematical value of a [`Prompt`].
pub struct PromptModel {
    pub text: Option<Seq<TextPartModel>>,
    pub options: Seq<PromptOptionModel>,
}

/// Mathematical value of a [`Scene`].
pub struct SceneModel {
    pub name: Seq<char>,
    pub content: Seq<ScenePartModel>,
}

/// Mathematical value of a [`Module`]: the scenes in order, and the fields as
/// a map from name to value.
pub struct ModuleModel {
    pub scenes: Seq<SceneModel>,
    pub fields: Map<Seq<char>, ExpressionModel>,
}

/// Mathematical value of a [`ScriptPart`].
pub enum ScriptPartModel {
    Scene(SceneModel),
    Comment(Seq<char>),
    Field(Seq<char>, ExpressionModel),
}

/// A name with a path: its segments, which the source joins with `.`.
#[derive(Debug, PartialEq)]
pub struct Symbol {
    pub path: Vec<String>,
}

/// An expression.
///
/// `Float` holds the text of its literal, without separators; the number is
/// what that text reads as.
#[derive(Debug, PartialEq)]
pub enum Expression {
    Call { name: String, args: Vec<Expression> },
    Unit(Box<Expression>, String),
    Int(i32),
    Float(String),
    Boolean(bool),
    Text(Vec<TextPart>),
    Symbol(Symbol),
}

/// One part of a text: a fragment that stands for itself, or an expression
/// whose value is put in its place.
#[derive(Debug, PartialEq)]
pub enum TextPart {
    Text(String),
    Expression(Expression),
}

/// A change of speaker: who speaks from here on, and how.
#[derive(Debug, PartialEq)]
pub struct SpeakerChangeMarker {
    pub speaker_id: String,
    pub modifiers: Vec<String>,
}

/// A line that a character speaks.
#[derive(Debug, PartialEq)]
pub struct Dialogue {
    pub parts: Vec<TextPart>,
}

/// A line that describes the scene.
#[derive(Debug, PartialEq)]
pub struct Narration {
    pub parts: Vec<TextPart>,
}

/// A point where the player chooses: a lead-in, if there is one, and the
/// options.
#[derive(Debug, PartialEq)]
pub struct Prompt {
    pub text: Option<Vec<TextPart>>,
    pub options: Vec<PromptOption>,
}

/// One choice of a prompt: its label, and what follows when it is taken.
#[derive(Debug, PartialEq)]
pub struct PromptOption {
    pub text: Vec<TextPart>,
    pub content: Vec<ScenePart>,
}

/// An item of a block.
#[derive(Debug, PartialEq)]
pub enum ScenePart {
    SpeakerChangeMarker(SpeakerChangeMarker),
    Dialogue(Dialogue),
    Narration(Narration),
    Prompt(Prompt),
    Expression(Expression),
    Comment(String),
}

/// A named block of items.
#[derive(Debug, PartialEq)]
pub struct Scene {
    pub name: String,
    pub content: Vec<ScenePart>,
}

/// A top-level field assignment.
#[derive(Debug, PartialEq)]
pub struct Field {
    pub name: String,
    pub value: Expression,
}

/// A whole script: its scenes in source order and its fields.
///
/// `fields` stands for a map from name to value. Where a name occurs more
/// than once, the last occurrence is the one that counts.
#[derive(Debug)]
pub struct Module {
    pub scenes: Vec<Scene>,
    pub fields: Vec<Field>,
}

/// An item of a module.
#[derive(Debug, PartialEq, Clone, Copy)]
pub struct ModuleItem {}

/// An item of a script, as the source has it.
#[derive(Debug, PartialEq)]
pub enum ScriptPart {
    Scene(Scene),
    Comment(String),
    Field(String, Expression),
}

/// The characters of each string of a list.
pub open spec fn strings_view(v: Seq<String>) -> Seq<Seq<char>> {
    Seq::new(v.len(), |i: int| v[i]@)
}

impl View for Symbol {
    type V = Seq<Seq<char>>;

    open spec fn view(&self) -> Seq<Seq<char>> {
        strings_view(self.path@)
    }
}

/// What an expression stands for.
pub open spec fn expression_model(e: Expression) -> ExpressionModel
    decreases e,
{
    match e {
        Expression::Call { name, args } => ExpressionModel::Call {
            name: name@,
            args: expressions_model(args@),
        },
        Expression::Unit(inner, unit) => ExpressionModel::Unit(
            Box::new(expression_model(*inner)),
            unit@,
        ),
        Expression::Int(v) => ExpressionModel::Int(v as int),
        Expression::Float(text) => ExpressionModel::Float(text@),
        Expression::Boolean(b) => ExpressionModel::Boolean(b),
        Expression::Text(parts) => ExpressionModel::Text(text_parts_model(parts@)),
        Expression::Symbol(symbol) => ExpressionModel::Symbol(symbol@),
    }
}

/// What each expression of a list stands for.
pub open spec fn expressions_model(v: Seq<Expression>) -> Seq<ExpressionModel>
    decreases v,
{
    Seq::new(
        v.len(),
        |i: int|
            if 0 <= i < v.len() {
                expression_model(v[i])
            } else {
                ExpressionModel::Boolean(false)
            },
    )
}

/// What a part of a text stands for.
pub open spec fn text_part_model(p: TextPart) -> TextPartModel
    decreases p,
{
    match p {
        TextPart::Text(text) => TextPartModel::Text(text@),
        TextPart::Expression(e) => TextPartModel::Expression(expression_model(e)),
    }
}

/// What each part of a text stands for.
pub open spec fn text_parts_model(v: Seq<TextPart>) -> Seq<TextPartModel>
    decreases v,
{
    Seq::new(
        v.len(),
        |i: int|
            if 0 <= i < v.len() {
                text_part_model(v[i])
            } else {
                TextPartModel::Text(Seq::empty())
            },
    )
}

impl View for Expression {
    type V = ExpressionModel;

    open spec fn view(&self) -> ExpressionModel {
        expression_model(*self)
    }
}

impl View for TextPart {
    type V = TextPartModel;

    open spec fn view(&self) -> TextPartModel {
        text_part_model(*self)
    }
}

/// What an item of a block stands for.
pub open spec fn scene_part_model(p: ScenePart) -> ScenePartModel
    decreases p,
{
    match p {
        ScenePart::SpeakerChangeMarker(marker) => ScenePartModel::SpeakerChangeMarker(marker@),
        ScenePart::Dialogue(dialogue) => ScenePartModel::Dialogue(
            text_parts_model(dialogue.parts@),
        ),
        ScenePart::Narration(narration) => ScenePartModel::Narration(
            text_parts_model(narration.parts@),
        ),
        ScenePart::Prompt(prompt) => ScenePartModel::Prompt(
            PromptModel {
                text: match prompt.text {
                    Some(parts) => Some(text_parts_model(parts@)),
                    None => None,
                },
                options: options_model(prompt.options@),
            },
        ),
        ScenePart::Expression(e) => ScenePartModel::Expression(expression_model(e)),
        ScenePart::Comment(text) => ScenePartModel::Comment(text@),
    }
}

/// What each item of a block stands for.
pub open spec fn scene_parts_model(v: Seq<ScenePart>) -> Seq<ScenePartModel>
    decreases v,
{
    Seq::new(
        v.len(),
        |i: int|
            if 0 <= i < v.len() {
                scene_part_model(v[i])
            } else {
                ScenePartModel::Comment(Seq::empty())
            },
    )
}

/// What an option stands for.
pub open spec fn option_model(o: PromptOption) -> PromptOptionModel
    decreases o,
{
    PromptOptionModel {
        text: text_parts_model(o.text@),
        content: scene_parts_model(o.content@),
    }
}

/// What each option of a list stands for.
pub open spec fn options_model(v: Seq<PromptOption>) -> Seq<PromptOptionModel>
    decreases v,
{
    Seq::new(
        v.len(),
        |i: int|
            if 0 <= i < v.len() {
                option_model(v[i])
            } else {
                PromptOptionModel { text: Seq::empty(), content: Seq::empty() }
            },
    )
}

/// What each scene of a list stands for.
pub open spec fn scenes_model(v: Seq<Scene>) -> Seq<SceneModel> {
    Seq::new(v.len(), |i: int| v[i]@)
}

/// The map that a list of field assignments stands for: a later assignment
/// to a name replaces an earlier one.
pub open spec fn fields_model(v: Seq<Field>) -> Map<Seq<char>, ExpressionModel>
    decreases v.len(),
{
    if v.len() == 0 {
        Map::empty()
    } else {
        fields_model(v.drop_last()).insert(v.last().name@, v.last().value@)
    }
}

impl View for SpeakerChangeMarker {
    type V = SpeakerChangeMarkerModel;

    open spec fn view(&self) -> SpeakerChangeMarkerModel {
        SpeakerChangeMarkerModel {
            speaker_id: self.speaker_id@,
            modifiers: strings_view(self.modifiers@),
        }
    }
}

impl View for Dialogue {
    type V = Seq<TextPartModel>;

    open spec fn view(&self) -> Seq<TextPartModel> {
        text_parts_model(self.parts@)
    }
}

impl View for Narration {
    type V = Seq<TextPartModel>;

    open spec fn view(&self) -> Seq<TextPartModel> {
        text_parts_model(self.parts@)
    }
}

impl View for PromptOption {
    type V = PromptOptionModel;

    open spec fn view(&self) -> PromptOptionModel {
        option_model(*self)
    }
}

impl View for Prompt {
    type V = PromptModel;

    open spec fn view(&self) -> PromptModel {
        PromptModel {
            text: match self.text {
                Some(parts) => Some(text_parts_model(parts@)),
                None => None,
            },
            options: options_model(self.options@),
        }
    }
}

impl View for ScenePart {
    type V = ScenePartModel;

    open spec fn view(&self) -> ScenePartModel {
        scene_part_model(*self)
    }
}

impl View for Scene {
    type V = SceneModel;

    open spec fn view(&self) -> SceneModel {
        SceneModel { name: self.name@, content: scene_parts_model(self.content@) }
    }
}

impl View for Module {
    type V = ModuleModel;

    open spec fn view(&self) -> ModuleModel {
        ModuleModel { scenes: scenes_model(self.scenes@), fields: fields_model(self.fields@) }
    }
}

impl View for ScriptPart {
    type V = ScriptPartModel;

    open spec fn view(&self) -> ScriptPartModel {
        match self {
            ScriptPart::Scene(scene) => ScriptPartModel::Scene(scene@),
            ScriptPart::Comment(text) => ScriptPartModel::Comment(text@),
            ScriptPart::Field(name, value) => ScriptPartModel::Field(name@, value@),
        }
    }
}

/// A list with one string more stands for one value more.
pub proof fn lemma_strings_push(v: Seq<String>, x: String)
    ensures
        strings_view(v.push(x)) == strings_view(v).push(x@),
{
    assert(strings_view(v.push(x)) =~= strings_view(v).push(x@));
}

/// A list with one expression more stands for one value more.
pub proof fn lemma_expressions_push(v: Seq<Expression>, x: Expression)
    ensures
        expressions_model(v.push(x)) == expressions_model(v).push(x@),
{
    assert(expressions_model(v.push(x)) =~= expressions_model(v).push(x@));
}

/// A text with one part more stands for one value more.
pub proof fn lemma_text_parts_push(v: Seq<TextPart>, x: TextPart)
    ensures
        text_parts_model(v.push(x)) == text_parts_model(v).push(x@),
{
    assert(text_parts_model(v.push(x)) =~= text_parts_model(v).push(x@));
}

/// A block with one item more stands for one value more.
pub proof fn lemma_scene_parts_push(v: Seq<ScenePart>, x: ScenePart)
    ensures
        scene_parts_model(v.push(x)) == scene_parts_model(v).push(x@),
{
    assert(scene_parts_model(v.push(x)) =~= scene_parts_model(v).push(x@));
}

/// A list with one option more stands for one value more.
pub proof fn lemma_options_push(v: Seq<PromptOption>, x: PromptOption)
    ensures
        options_model(v.push(x)) == options_model(v).push(x@),
{
    assert(options_model(v.push(x)) =~= options_model(v).push(x@));
}

/// A list with one scene more stands for one value more.
pub proof fn lemma_scenes_push(v: Seq<Scene>, x: Scene)
    ensures
        scenes_model(v.push(x)) == scenes_model(v).push(x@),
{
    assert(scenes_model(v.push(x)) =~= scenes_model(v).push(x@));
}

impl Clone for Expression {
    fn clone(&self) -> (r: Self)
        ensures
            r@ == self@,
        decreases self,
    {
        match self {
            Expression::Call { name, args } => Expression::Call {
                name: name.clone(),
                args: clone_expressions(args),
            },
            Expression::Unit(inner, unit) => Expression::Unit(
                Box::new((**inner).clone()),
                unit.clone(),
            ),
            Expression::Int(v) => Expression::Int(*v),
            Expression::Float(text) => Expression::Float(text.clone()),
            Expression::Boolean(b) => Expression::Boolean(*b),
            Expression::Text(parts) => Expression::Text(clone_text_parts(parts)),
            Expression::Symbol(symbol) => Expression::Symbol(symbol.clone()),
        }
    }
}

impl Clone for Symbol {
    fn clone(&self) -> (r: Self)
        ensures
            r@ == self@,
    {
        Symbol { path: clone_strings(&self.path) }
    }
}

impl Clone for TextPart {
    fn clone(&self) -> (r: Self)
        ensures
            r@ == self@,
        decreases self,
    {
        match self {
            TextPart::Text(text) => TextPart::Text(text.clone()),
            TextPart::Expression(e) => TextPart::Expression(e.clone()),
        }
    }
}

impl Clone for SpeakerChangeMarker {
    fn clone(&self) -> (r: Self)
        ensures
            r@ == self@,
    {
        SpeakerChangeMarker {
            speaker_id: self.speaker_id.clone(),
            modifiers: clone_strings(&self.modifiers),
        }
    }
}

impl Clone for Dialogue {
    fn clone(&self) -> (r: Self)
        ensures
            r@ == self@,
    {
        Dialogue { parts: clone_text_parts(&self.parts) }
    }
}

impl Clone for Narration {
    fn clone(&self) -> (r: Self)
        ensures
            r@ == self@,
    {
        Narration { parts: clone_text_parts(&self.parts) }
    }
}

impl Clone for Prompt {
    fn clone(&self) -> (r: Self)
        ensures
            r@ == self@,
        decreases self,
    {
        Prompt {
            text: match &self.text {
                Some(parts) => Some(clone_text_parts(parts)),
                None => None,
            },
            options: clone_options(&self.options),
        }
    }
}

impl Clone for PromptOption {
    fn clone(&self) -> (r: Self)
        ensures
            r@ == self@,
        decreases self,
    {
        PromptOption {
            text: clone_text_parts(&self.text),
            content: clone_scene_parts(&self.content),
        }
    }
}

impl Clone for ScenePart {
    fn clone(&self) -> (r: Self)
        ensures
            r@ == self@,
        decreases self,
    {
        match self {
            ScenePart::SpeakerChangeMarker(marker) => ScenePart::SpeakerChangeMarker(
                marker.clone(),
            ),
            ScenePart::Dialogue(dialogue) => ScenePart::Dialogue(dialogue.clone()),
            ScenePart::Narration(narration) => ScenePart::Narration(narration.clone()),
            ScenePart::Prompt(prompt) => ScenePart::Prompt(prompt.clone()),
            ScenePart::Expression(e) => ScenePart::Expression(e.clone()),
            ScenePart::Comment(text) => ScenePart::Comment(text.clone()),
        }
    }
}

impl Clone for Scene {
    fn clone(&self) -> (r: Self)
        ensures
            r@ == self@,
    {
        Scene { name: self.name.clone(), content: clone_scene_parts(&self.content) }
    }
}

impl Clone for Field {
    fn clone(&self) -> (r: Self)
        ensures
            r.name@ == self.name@,
            r.value@ == self.value@,
    {
        Field { name: self.name.clone(), value: self.value.clone() }
    }
}

impl Clone for ScriptPart {
    fn clone(&self) -> (r: Self)
        ensures
            r@ == self@,
    {
        match self {
            ScriptPart::Scene(scene) => ScriptPart::Scene(scene.clone()),
            ScriptPart::Comment(text) => ScriptPart::Comment(text.clone()),
            ScriptPart::Field(name, value) => ScriptPart::Field(name.clone(), value.clone()),
        }
    }
}

/// A copy of each item of a block.
pub fn clone_scene_parts(v: &Vec<ScenePart>) -> (r: Vec<ScenePart>)
    ensures
        scene_parts_model(r@) == scene_parts_model(v@),
    decreases v,
{
    let mut out: Vec<ScenePart> = Vec::new();
    let mut i: usize = 0;
    while i < v.len()
        invariant
            i <= v.len(),
            out@.len() == i,
            forall|j: int| 0 <= j < i ==> out@[j]@ == v@[j]@,
        decreases v.len() - i,
    {
        out.push(v[i].clone());
        i += 1;
    }
    assert(scene_parts_model(out@) =~= scene_parts_model(v@));
    out
}

/// A copy of each option of a list.
pub fn clone_options(v: &Vec<PromptOption>) -> (r: Vec<PromptOption>)
    ensures
        options_model(r@) == options_model(v@),
    decreases v,
{
    let mut out: Vec<PromptOption> = Vec::new();
    let mut i: usize = 0;
    while i < v.len()
        invariant
            i <= v.len(),
            out@.len() == i,
            forall|j: int| 0 <= j < i ==> out@[j]@ == v@[j]@,
        decreases v.len() - i,
    {
        out.push(v[i].clone());
        i += 1;
    }
    assert(options_model(out@) =~= options_model(v@));
    out
}

/// A copy of each string of a list.
pub fn clone_strings(v: &Vec<String>) -> (r: Vec<String>)
    ensures
        strings_view(r@) == strings_view(v@),
{
    let mut out: Vec<String> = Vec::new();
    let mut i: usize = 0;
    while i < v.len()
        invariant
            i <= v.len(),
            out@.len() == i,
            forall|j: int| 0 <= j < i ==> out@[j]@ == v@[j]@,
        decreases v.len() - i,
    {
        out.push(v[i].clone());
        i += 1;
    }
    assert(strings_view(out@) =~= strings_view(v@));
    out
}

/// A copy of each expression of a list.
pub fn clone_expressions(v: &Vec<Expression>) -> (r: Vec<Expression>)
    ensures
        expressions_model(r@) == expressions_model(v@),
    decreases v,
{
    let mut out: Vec<Expression> = Vec::new();
    let mut i: usize = 0;
    while i < v.len()
        invariant
            i <= v.len(),
            out@.len() == i,
            forall|j: int| 0 <= j < i ==> out@[j]@ == v@[j]@,
        decreases v.len() - i,
    {
        out.push(v[i].clone());
        i += 1;
    }
    assert(expressions_model(out@) =~= expressions_model(v@));
    out
}

/// A copy of each part of a text.
pub fn clone_text_parts(v: &Vec<TextPart>) -> (r: Vec<TextPart>)
    ensures
        text_parts_model(r@) == text_parts_model(v@),
    decreases v,
{
    let mut out: Vec<TextPart> = Vec::new();
    let mut i: usize = 0;
    while i < v.len()
        invariant
            i <= v.len(),
            out@.len() == i,
            forall|j: int| 0 <= j < i ==> out@[j]@ == v@[j]@,
        decreases v.len() - i,
    {
        out.push(v[i].clone());
        i += 1;
    }
    assert(text_parts_model(out@) =~= text_parts_model(v@));
    out
}

/// The assignments of a script, in the order in which it holds them.
pub open spec fn fields_list(v: Seq<Field>) -> Seq<(Seq<char>, ExpressionModel)> {
    Seq::new(v.len(), |i: int| (v[i].name@, v[i].value@))
}

/// Lists of the same assignments stand for the same map.
pub proof fn lemma_fields_by_list(a: Seq<Field>, b: Seq<Field>)
    requires
        fields_list(a) == fields_list(b),
    ensures
        fields_model(a) == fields_model(b),
    decreases a.len(),
{
    assert(a.len() == fields_list(a).len());
    assert(b.len() == fields_list(b).len());
    if a.len() > 0 {
        assert(fields_list(a.drop_last()) =~= fields_list(a).drop_last());
        assert(fields_list(b.drop_last()) =~= fields_list(b).drop_last());
        lemma_fields_by_list(a.drop_last(), b.drop_last());
        assert(fields_list(a)[a.len() - 1] == fields_list(b)[a.len() - 1]);
    }
}

/// Whether some assignment in `v` is to `name`.
pub open spec fn assigns(v: Seq<Field>, name: Seq<char>) -> bool {
    exists|i: int| 0 <= i < v.len() && #[trigger] v[i].name@ == name
}

/// The names of the map are the names that the list assigns to.
pub proof fn lemma_fields_domain(v: Seq<Field>, name: Seq<char>)
    ensures
        fields_model(v).dom().contains(name) == assigns(v, name),
    decreases v.len(),
{
    if v.len() > 0 {
        lemma_fields_domain(v.drop_last(), name);
        if assigns(v, name) {
            let i = choose|i: int| 0 <= i < v.len() && #[trigger] v[i].name@ == name;
            if i < v.len() - 1 {
                assert(v.drop_last()[i].name@ == name);
            }
        }
        if assigns(v.drop_last(), name) {
            let i = choose|i: int|
                0 <= i < v.drop_last().len() && #[trigger] v.drop_last()[i].name@ == name;
            assert(v[i].name@ == name);
        }
    }
}

/// Taking out one assignment to `name` changes nothing for the other names.
pub proof fn lemma_fields_remove(v: Seq<Field>, i: int, name: Seq<char>)
    requires
        0 <= i < v.len(),
        v[i].name@ == name,
    ensures
        fields_model(v.remove(i)).remove(name) == fields_model(v).remove(name),
    decreases v.len(),
{
    let last = v.last();
    if i == v.len() - 1 {
        assert(v.remove(i) =~= v.drop_last());
        assert(fields_model(v.drop_last()).insert(name, last.value@).remove(name)
            =~= fields_model(v.drop_last()).remove(name));
    } else {
        lemma_fields_remove(v.drop_last(), i, name);
        assert(v.remove(i).drop_last() =~= v.drop_last().remove(i));
        assert(v.remove(i).last() == last);
        let a = fields_model(v.drop_last().remove(i));
        let b = fields_model(v.drop_last());
        assert(a.insert(last.name@, last.value@).remove(name) =~= a.remove(name).insert(
            last.name@,
            last.value@,
        ).remove(name));
        assert(b.insert(last.name@, last.value@).remove(name) =~= b.remove(name).insert(
            last.name@,
            last.value@,
        ).remove(name));
    }
}

/// A copy of each scene.
pub fn clone_scenes(v: &Vec<Scene>) -> (r: Vec<Scene>)
    ensures
        scenes_model(r@) == scenes_model(v@),
{
    let mut out: Vec<Scene> = Vec::new();
    let mut i: usize = 0;
    while i < v.len()
        invariant
            i <= v.len(),
            out@.len() == i,
            forall|j: int| 0 <= j < i ==> out@[j]@ == v@[j]@,
        decreases v.len() - i,
    {
        out.push(v[i].clone());
        i += 1;
    }
    assert(scenes_model(out@) =~= scenes_model(v@));
    out
}

/// A copy of each assignment.
pub fn clone_fields(v: &Vec<Field>) -> (r: Vec<Field>)
    ensures
        fields_list(r@) == fields_list(v@),
        fields_model(r@) == fields_model(v@),
{
    let mut out: Vec<Field> = Vec::new();
    let mut i: usize = 0;
    while i < v.len()
        invariant
            i <= v.len(),
            out@.len() == i,
            forall|j: int|
                0 <= j < i ==> out@[j].name@ == v@[j].name@ && out@[j].value@ == v@[j].value@,
        decreases v.len() - i,
    {
        out.push(v[i].clone());
        i += 1;
    }
    proof {
        assert(fields_list(out@) =~= fields_list(v@));
        lemma_fields_by_list(out@, v@);
    }
    out
}

impl Clone for Module {
    fn clone(&self) -> (r: Self)
        ensures
            r@ == self@,
            fields_list(r.fields@) == fields_list(self.fields@),
    {
        Module { scenes: clone_scenes(&self.scenes), fields: clone_fields(&self.fields) }
    }
}

impl Module {
    /// A script without scenes or fields.
    pub fn new() -> (r: Module)
        ensures
            r@ == (ModuleModel { scenes: Seq::empty(), fields: Map::empty() }),
            r.scenes@.len() == 0,
            r.fields@.len() == 0,
    {
        let r = Module { scenes: Vec::new(), fields: Vec::new() };
        assert(scenes_model(r.scenes@) =~= Seq::empty());
        r
    }

    /// Assigns `value` to the field `name`, in place of what was assigned to
    /// it before.
    pub fn set_field(&mut self, name: String, value: Expression)
        ensures
            final(self)@.fields == old(self)@.fields.insert(name@, value@),
            final(self).scenes == old(self).scenes,
            !assigns(final(self).fields@.drop_last(), name@),
            final(self).fields@.len() > 0,
            fields_list(final(self).fields@).last() == (name@, value@),
            forall|j: int|
                0 <= j < final(self).fields@.len() - 1 ==> fields_list(
                    old(self).fields@,
                ).contains(#[trigger] fields_list(final(self).fields@)[j]),
    {
        proof {
            let list = fields_list(self.fields@);
            assert forall|j: int| 0 <= j < list.len() implies list.contains(
                #[trigger] list[j],
            ) by {}
        }
        let mut i: usize = 0;
        while i < self.fields.len()
            invariant
                i <= self.fields.len(),
                self.scenes == old(self).scenes,
                fields_model(self.fields@).remove(name@) == fields_model(old(self).fields@).remove(
                    name@,
                ),
                forall|j: int| 0 <= j < i ==> (#[trigger] self.fields@[j]).name@ != name@,
                forall|j: int|
                    0 <= j < self.fields@.len() ==> fields_list(old(self).fields@).contains(
                        #[trigger] fields_list(self.fields@)[j],
                    ),
            decreases self.fields.len() - i,
        {
            if self.fields[i].name == name {
                proof {
                    lemma_fields_remove(self.fields@, i as int, name@);
                    let before = self.fields@;
                    let after = before.remove(i as int);
                    assert forall|j: int| 0 <= j < after.len() implies fields_list(
                        old(self).fields@,
                    ).contains(#[trigger] fields_list(after)[j]) by {
                        if j < i {
                            assert(fields_list(after)[j] == fields_list(before)[j]);
                        } else {
                            assert(fields_list(after)[j] == fields_list(before)[j + 1]);
                        }
                    }
                }
                self.fields.remove(i);
            } else {
                i += 1;
            }
        }
        proof {
            lemma_fields_domain(self.fields@, name@);
            assert(fields_model(self.fields@).remove(name@) =~= fields_model(self.fields@));
            assert(fields_model(old(self).fields@).remove(name@).insert(name@, value@)
                =~= fields_model(old(self).fields@).insert(name@, value@));
            assert(self.fields@.push(Field { name, value }).drop_last() =~= self.fields@);
            let after = self.fields@.push(Field { name, value });
            assert forall|j: int| 0 <= j < after.len() - 1 implies fields_list(
                old(self).fields@,
            ).contains(#[trigger] fields_list(after)[j]) by {
                assert(fields_list(after)[j] == fields_list(self.fields@)[j]);
            }
        }
        self.fields.push(Field { name, value });
    }

    /// What is assigned to the field `name`, if anything is.
    pub fn field(&self, name: &str) -> (r: Option<&Expression>)
        ensures
            match r {
                Some(value) => self@.fields.dom().contains(name@) && self@.fields[name@]
                    == value@,
                None => !self@.fields.dom().contains(name@),
            },
    {
        let mut i: usize = self.fields.len();
        proof {
            assert(self.fields@.subrange(0, i as int) =~= self.fields@);
        }
        while i > 0
            invariant
                i <= self.fields.len(),
                fields_model(self.fields@).dom().contains(name@) == fields_model(
                    self.fields@.subrange(0, i as int),
                ).dom().contains(name@),
                fields_model(self.fields@).dom().contains(name@) ==> fields_model(
                    self.fields@,
                )[name@] == fields_model(self.fields@.subrange(0, i as int))[name@],
            decreases i,
        {
            i -= 1;
            proof {
                assert(self.fields@.subrange(0, i + 1).drop_last() =~= self.fields@.subrange(
                    0,
                    i as int,
                ));
            }
            if str_eq(self.fields[i].name.as_str(), name) {
                return Some(&self.fields[i].value);
            }
        }
        None
    }
}

/// Whether two strings hold the same characters.
pub fn str_eq(a: &str, b: &str) -> (r: bool)
    ensures
        r == (a@ == b@),
{
    let n = a.unicode_len();
    if n != b.unicode_len() {
        return false;
    }
    let mut i: usize = 0;
    while i < n
        invariant
            i <= n,
            n == a@.len(),
            n == b@.len(),
            forall|j: int| 0 <= j < i ==> a@[j] == b@[j],
        decreases n - i,
    {
        if a.get_char(i) != b.get_char(i) {
            return false;
        }
        i += 1;
    }
    assert(a@ =~= b@);
    true
}

} // verus!
