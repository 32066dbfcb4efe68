//! Reads what the `# /// script` block of a Python source file declares:
//! its dependencies, the Python versions it supports and the channels it
//! asks for.

use crate::conda::{read_specs, specs_are_read, DeclaredSpec, SpecReadView};
use crate::data::Duplicate;
use crate::dependency::{Dependency, DependencyView};
use crate::fields::{
    bad, element, element_path, explained, extract_strings, failures, strings_of, FieldView,
};
use crate::pep440::{outcome, parse_specifiers, read_views, specifiers_outcome, Specifier, SpecifierView};
use crate::pep508::{are_read, read_all, ReadView, Requirement};
use crate::pep723::block::{extract_script_block, only_block, script_contents, MultipleBlocks};
use crate::text::{concat, concat3, lines};
use crate::toml::{keys1, toml_at, toml_error, Document, Node, NodeView};
use crate::tool_ana::{
    channels_field, conda_channels, matchspec_dependencies, matchspecs_field,
};
use vstd::prelude::*;
use vstd::string::*;

verus! {

/// What a `# /// script` block declares: its dependency specifiers, then
/// its match specs, the Python versions it supports, and the channels it
/// asks for.
#[derive(Debug, Clone, PartialEq, Eq)]
pub struct ScriptRequirements {
    pub dependencies: Vec<Dependency>,
    pub requires_python: Option<Vec<Specifier>>,
    pub channels: Option<Vec<String>>,
}

/// What a block declares as mathematical values.
pub struct ScriptView {
    pub dependencies: Seq<DependencyView>,
    pub requires_python: Option<Seq<SpecifierView>>,
    pub channels: Option<Seq<Seq<char>>>,
}

impl DeepView for ScriptRequirements {
    type V = ScriptView;

    open spec fn deep_view(&self) -> ScriptView {
        ScriptView {
            dependencies: self.dependencies.deep_view(),
            requires_python: self.requires_python.deep_view(),
            channels: self.channels.deep_view(),
        }
    }
}

/// An invalid field of a block: where it is, and why it was rejected where
/// more is known than that it is not valid.
#[derive(Debug, Clone, PartialEq, Eq)]
pub struct InvalidField {
    /// The place of the field, such as `dependencies[2]`. The empty path
    /// means the block itself.
    pub path: String,
    /// Why the field was rejected.
    pub description: Option<String>,
}

impl DeepView for InvalidField {
    type V = FieldView;

    open spec fn deep_view(&self) -> FieldView {
        FieldView { path: self.path@, description: self.description.deep_view() }
    }
}

/// How an invalid field is shown.
pub open spec fn field_text(f: FieldView) -> Seq<char> {
    let place = if f.path.len() == 0 {
        "script metadata"@
    } else {
        f.path
    };
    match f.description {
        Some(description) => place + " not valid: "@ + description,
        None => place + " not valid"@,
    }
}

impl InvalidField {
    fn of(field: crate::fields::InvalidField) -> (r: InvalidField)
        ensures
            r.deep_view() == field.deep_view(),
    {
        InvalidField { path: field.path, description: field.description }
    }

    fn explained(path: String, description: String) -> (r: InvalidField)
        ensures
            r.deep_view() == explained(path@, description@),
    {
        InvalidField { path, description: Some(description) }
    }

    /// How the field is shown.
    pub fn to_string(&self) -> (r: String)
        ensures
            r@ == field_text(self.deep_view()),
    {
        let place = if self.path.as_str().is_empty() {
            "script metadata"
        } else {
            self.path.as_str()
        };
        match &self.description {
            Some(description) => concat3(place, " not valid: ", description.as_str()),
            None => concat(place, " not valid"),
        }
    }
}

/// Every invalid field of one block; at least one.
#[derive(Debug)]
pub struct Pep723Error {
    fields: Vec<InvalidField>,
}

/// The fields of an error as they are shown, each on its own line.
pub open spec fn fields_text(fields: Seq<FieldView>) -> Seq<char>
    decreases fields.len(),
{
    if fields.len() == 0 {
        "invalid PEP 723 script metadata:\n"@
    } else {
        fields_text(fields.drop_last()) + "  "@ + field_text(fields.last()) + "\n"@
    }
}

impl Pep723Error {
    /// The invalid fields.
    pub closed spec fn view_fields(&self) -> Seq<FieldView> {
        self.fields.deep_view()
    }

    fn new(fields: Vec<InvalidField>) -> (r: Pep723Error)
        ensures
            r.view_fields() == fields.deep_view(),
    {
        Pep723Error { fields }
    }

    fn one(field: InvalidField) -> (r: Pep723Error)
        ensures
            r.view_fields() == seq![field.deep_view()],
    {
        let mut fields: Vec<InvalidField> = Vec::new();
        fields.push(field);
        assert(fields.deep_view() =~= seq![field.deep_view()]);
        Pep723Error { fields }
    }

    /// The invalid fields, in document order.
    pub fn fields(&self) -> (r: &Vec<InvalidField>)
        ensures
            r.deep_view() == self.view_fields(),
    {
        &self.fields
    }

    /// How the error is shown.
    pub fn to_string(&self) -> (r: String)
        ensures
            r@ == fields_text(self.view_fields()),
    {
        let ghost all = self.fields.deep_view();
        let mut out = "invalid PEP 723 script metadata:\n".to_owned();
        let mut i: usize = 0;
        while i < self.fields.len()
            invariant
                i <= self.fields.len(),
                all == self.fields.deep_view(),
                out@ == fields_text(all.take(i as int)),
            decreases self.fields.len() - i,
        {
            assert(all.take(i + 1).drop_last() =~= all.take(i as int));
            assert(all.take(i + 1).last() == self.fields@[i as int].deep_view());
            let one = self.fields[i].to_string();
            out.append("  ");
            out.append(one.as_str());
            out.append("\n");
            i += 1;
        }
        assert(all.take(i as int) =~= all);
        out
    }
}

/// The Python versions the script supports.
pub open spec fn requires_python_field(t: Seq<char>) -> Result<
    Option<Seq<SpecifierView>>,
    FieldView,
> {
    match toml_at(t, keys1("requires-python"@)) {
        NodeView::Absent => Ok(None),
        NodeView::Text(raw) => match specifiers_outcome(raw) {
            Ok(specifiers) => Ok(Some(specifiers)),
            Err(message) => Err(explained("requires-python"@, message)),
        },
        _ => Err(bad("requires-python"@)),
    }
}

/// The dependency specifiers of the script, unread.
pub open spec fn dependencies_field(t: Seq<char>) -> Result<Seq<Seq<char>>, FieldView> {
    match toml_at(t, keys1("dependencies"@)) {
        NodeView::Absent => Ok(Seq::empty()),
        NodeView::Array(items) => strings_of(items, "dependencies"@),
        _ => Err(bad("dependencies"@)),
    }
}

fn extract_requires_python(doc: &Document) -> (r: Result<Option<Vec<Specifier>>, InvalidField>)
    ensures
        match r {
            Ok(specifiers) => requires_python_field(doc.source()) == Ok::<
                Option<Seq<SpecifierView>>,
                FieldView,
            >(specifiers.deep_view()),
            Err(field) => requires_python_field(doc.source()) == Err::<
                Option<Seq<SpecifierView>>,
                FieldView,
            >(field.deep_view()),
        },
{
    match doc.get("requires-python") {
        Node::Absent => Ok(None),
        Node::Text(raw) => match parse_specifiers(raw.as_str()) {
            Ok(specifiers) => Ok(Some(specifiers)),
            Err(message) => Err(InvalidField::explained("requires-python".to_owned(), message)),
        },
        _ => Err(InvalidField { path: "requires-python".to_owned(), description: None }),
    }
}

fn extract_dependencies(doc: &Document) -> (r: Result<Vec<String>, InvalidField>)
    ensures
        match r {
            Ok(list) => dependencies_field(doc.source()) == Ok::<Seq<Seq<char>>, FieldView>(
                list.deep_view(),
            ),
            Err(field) => dependencies_field(doc.source()) == Err::<Seq<Seq<char>>, FieldView>(
                field.deep_view(),
            ),
        },
{
    match doc.get("dependencies") {
        Node::Absent => {
            let none: Vec<String> = Vec::new();
            assert(none.deep_view() =~= Seq::empty());
            Ok(none)
        },
        Node::Array(items) => match extract_strings(&items, "dependencies") {
            Ok(list) => Ok(list),
            Err(field) => Err(InvalidField::of(field)),
        },
        _ => Err(InvalidField { path: "dependencies".to_owned(), description: None }),
    }
}

/// The sections of a block that passed every structural check, with their
/// dependencies unread.
#[derive(Debug)]
pub struct ScriptSections {
    pub requires_python: Option<Vec<Specifier>>,
    pub channels: Option<Vec<String>>,
    pub dependencies: Vec<String>,
    pub matchspecs: Vec<String>,
}

/// The sections of a block as mathematical values.
pub struct ScriptSectionsView {
    pub requires_python: Option<Seq<SpecifierView>>,
    pub channels: Option<Seq<Seq<char>>>,
    pub dependencies: Seq<Seq<char>>,
    pub matchspecs: Seq<Seq<char>>,
}

impl DeepView for ScriptSections {
    type V = ScriptSectionsView;

    open spec fn deep_view(&self) -> ScriptSectionsView {
        ScriptSectionsView {
            requires_python: self.requires_python.deep_view(),
            channels: self.channels.deep_view(),
            dependencies: self.dependencies.deep_view(),
            matchspecs: self.matchspecs.deep_view(),
        }
    }
}

/// The sections of a block's content, or the first structural problem.
pub open spec fn sections_of(t: Seq<char>) -> Result<ScriptSectionsView, FieldView> {
    if let Some(message) = toml_error(t) {
        Err(explained(""@, message))
    } else {
        match requires_python_field(t) {
            Err(field) => Err(field),
            Ok(requires_python) => match channels_field(t) {
                Err(field) => Err(field),
                Ok(channels) => match dependencies_field(t) {
                    Err(field) => Err(field),
                    Ok(dependencies) => match matchspecs_field(t) {
                        Err(field) => Err(field),
                        Ok(matchspecs) => Ok(
                            ScriptSectionsView {
                                requires_python,
                                channels,
                                dependencies,
                                matchspecs,
                            },
                        ),
                    },
                },
            },
        }
    }
}

/// Checks the structure of a block's content and takes it apart.
pub fn read_sections(content: &str) -> (r: Result<ScriptSections, InvalidField>)
    ensures
        match r {
            Ok(sections) => sections_of(content@) == Ok::<ScriptSectionsView, FieldView>(
                sections.deep_view(),
            ),
            Err(field) => sections_of(content@) == Err::<ScriptSectionsView, FieldView>(
                field.deep_view(),
            ),
        },
{
    let doc = match Document::parse(content) {
        Ok(doc) => doc,
        Err(message) => return Err(InvalidField::explained("".to_owned(), message)),
    };
    let requires_python = match extract_requires_python(&doc) {
        Ok(requires_python) => requires_python,
        Err(field) => return Err(field),
    };
    let channels = match conda_channels(&doc) {
        Ok(channels) => channels,
        Err(field) => return Err(InvalidField::of(field)),
    };
    let dependencies = match extract_dependencies(&doc) {
        Ok(dependencies) => dependencies,
        Err(field) => return Err(field),
    };
    let matchspecs = match matchspec_dependencies(&doc) {
        Ok(matchspecs) => matchspecs,
        Err(field) => return Err(InvalidField::of(field)),
    };
    Ok(ScriptSections { requires_python, channels, dependencies, matchspecs })
}

/// The dependency specifiers that could be read, and the fields of those
/// that could not.
pub open spec fn gather_requirements(reads: Seq<ReadView>) -> (
    Seq<DependencyView>,
    Seq<FieldView>,
)
    decreases reads.len(),
{
    if reads.len() == 0 {
        (Seq::empty(), Seq::empty())
    } else {
        let (list, errors) = gather_requirements(reads.drop_last());
        match reads.last() {
            Ok(requirement) => (list.push(DependencyView::Pep508(requirement)), errors),
            Err(message) => (
                list,
                errors.push(explained(element("dependencies"@, reads.len() - 1), message)),
            ),
        }
    }
}

/// The match specs that could be read, and the fields of those that could
/// not.
pub open spec fn gather_specs(reads: Seq<SpecReadView>) -> (Seq<DependencyView>, Seq<FieldView>)
    decreases reads.len(),
{
    if reads.len() == 0 {
        (Seq::empty(), Seq::empty())
    } else {
        let (list, errors) = gather_specs(reads.drop_last());
        match reads.last() {
            Ok(spec) => (list.push(DependencyView::Matchspec(spec)), errors),
            Err(message) => (
                list,
                errors.push(
                    explained(
                        element("tool.ana.matchspec-dependencies"@, reads.len() - 1),
                        message,
                    ),
                ),
            ),
        }
    }
}

/// What a block with the given sections declares, given what reading its
/// dependencies gave: every one that could not be read, or, without any,
/// all that it declares.
pub open spec fn script(
    s: ScriptSectionsView,
    requirements: Seq<ReadView>,
    specs: Seq<SpecReadView>,
) -> Result<ScriptView, Seq<FieldView>> {
    let (first, errors) = gather_requirements(requirements);
    let (second, more) = gather_specs(specs);
    if (errors + more).len() > 0 {
        Err(errors + more)
    } else {
        Ok(
            ScriptView {
                dependencies: first + second,
                requires_python: s.requires_python,
                channels: s.channels,
            },
        )
    }
}

/// The view of what was made of a block.
pub open spec fn script_outcome(r: Result<ScriptRequirements, Pep723Error>) -> Result<
    ScriptView,
    Seq<FieldView>,
> {
    match r {
        Ok(found) => Ok(found.deep_view()),
        Err(error) => Err(error.view_fields()),
    }
}

/// Puts together what a block declares from its sections and what reading
/// its dependencies gave.
pub fn assemble(
    sections: ScriptSections,
    requirements: &Vec<Result<Requirement, String>>,
    specs: &Vec<Result<DeclaredSpec, String>>,
) -> (r: Result<ScriptRequirements, Pep723Error>)
    ensures
        script_outcome(r) == script(
            sections.deep_view(),
            read_views(requirements@),
            read_views(specs@),
        ),
{
    let ghost all = read_views(requirements@);
    let mut dependencies: Vec<Dependency> = Vec::new();
    let mut errors: Vec<InvalidField> = Vec::new();
    let mut i: usize = 0;
    assert(dependencies.deep_view() =~= Seq::empty());
    assert(errors.deep_view() =~= Seq::empty());
    while i < requirements.len()
        invariant
            i <= requirements.len(),
            all == read_views(requirements@),
            (dependencies.deep_view(), errors.deep_view()) == gather_requirements(
                all.take(i as int),
            ),
        decreases requirements.len() - i,
    {
        assert(all.take(i + 1).drop_last() =~= all.take(i as int));
        assert(all.take(i + 1).last() == outcome(requirements@[i as int]));
        let ghost done = dependencies.deep_view();
        let ghost known = errors.deep_view();
        match &requirements[i] {
            Ok(requirement) => {
                let one = Dependency::Pep508(requirement.duplicate());
                dependencies.push(one);
                assert(dependencies.deep_view() =~= done.push(one.deep_view()));
            },
            Err(message) => {
                let field = InvalidField::explained(
                    element_path("dependencies", i),
                    message.clone(),
                );
                errors.push(field);
                assert(errors.deep_view() =~= known.push(field.deep_view()));
            },
        }
        i += 1;
    }
    assert(all.take(i as int) =~= all);
    let ghost first = gather_requirements(all);
    let ghost rest = read_views(specs@);
    let mut j: usize = 0;
    assert(dependencies.deep_view() =~= first.0 + Seq::empty());
    assert(errors.deep_view() =~= first.1 + Seq::empty());
    while j < specs.len()
        invariant
            j <= specs.len(),
            rest == read_views(specs@),
            dependencies.deep_view() == first.0 + gather_specs(rest.take(j as int)).0,
            errors.deep_view() == first.1 + gather_specs(rest.take(j as int)).1,
        decreases specs.len() - j,
    {
        assert(rest.take(j + 1).drop_last() =~= rest.take(j as int));
        assert(rest.take(j + 1).last() == outcome(specs@[j as int]));
        let ghost seen = gather_specs(rest.take(j as int));
        let ghost done = dependencies.deep_view();
        let ghost known = errors.deep_view();
        match &specs[j] {
            Ok(spec) => {
                let one = Dependency::Matchspec(Box::new(spec.duplicate()));
                dependencies.push(one);
                assert(dependencies.deep_view() =~= done.push(one.deep_view()));
                assert(dependencies.deep_view() =~= first.0 + seen.0.push(one.deep_view()));
            },
            Err(message) => {
                let field = InvalidField::explained(
                    element_path("tool.ana.matchspec-dependencies", j),
                    message.clone(),
                );
                errors.push(field);
                assert(errors.deep_view() =~= known.push(field.deep_view()));
                assert(errors.deep_view() =~= first.1 + seen.1.push(field.deep_view()));
            },
        }
        j += 1;
    }
    assert(rest.take(j as int) =~= rest);
    if errors.len() > 0 {
        Err(Pep723Error::new(errors))
    } else {
        Ok(
            ScriptRequirements {
                dependencies,
                requires_python: sections.requires_python,
                channels: sections.channels,
            },
        )
    }
}

/// The message for a source with more than one block.
pub open spec fn multiple_blocks_field() -> FieldView {
    explained(
        ""@,
        "multiple `# /// script` metadata blocks found (PEP 723 permits at most one)"@,
    )
}

/// Whether `r` is what the content of a block makes of it.
pub open spec fn is_read_from(content: Seq<char>, r: Result<ScriptRequirements, Pep723Error>) -> bool {
    match sections_of(content) {
        Err(field) => script_outcome(r) == Err::<ScriptView, Seq<FieldView>>(seq![field]),
        Ok(sections) => exists|requirements: Seq<ReadView>, specs: Seq<SpecReadView>|
            #![trigger script(sections, requirements, specs)]
            are_read(sections.dependencies, requirements) && specs_are_read(
                sections.matchspecs,
                specs,
            ) && script_outcome(r) == script(sections, requirements, specs),
    }
}

/// Reads the content of a block.
pub fn parse_content(content: &str) -> (r: Result<ScriptRequirements, Pep723Error>)
    ensures
        is_read_from(content@, r),
        r is Err ==> r->Err_0.view_fields().len() > 0,
{
    match read_sections(content) {
        Ok(sections) => {
            let requirements = read_all(&sections.dependencies);
            let specs = read_specs(&sections.matchspecs);
            let ghost s = sections.deep_view();
            let r = assemble(sections, &requirements, &specs);
            assert(script_outcome(r) == script(
                s,
                read_views(requirements@),
                read_views(specs@),
            ));
            r
        },
        Err(field) => Err(Pep723Error::one(field)),
    }
}

/// Reads what the `# /// script` block of a Python source file declares.
/// `Ok(None)` where there is no such block; an error where there is more
/// than one, or where the one there is cannot be read.
pub fn parse(source: &str) -> (r: Result<Option<ScriptRequirements>, Pep723Error>)
    ensures
        match only_block(script_contents(lines(source@), 0)) {
            Ok(None) => r is Ok && r->Ok_0 is None,
            Ok(Some(content)) => match r {
                Ok(Some(found)) => is_read_from(content, Ok(found)),
                Ok(None) => false,
                Err(error) => is_read_from(content, Err(error)),
            },
            Err(_) => match r {
                Ok(_) => false,
                Err(error) => error.view_fields() == seq![multiple_blocks_field()],
            },
        },
        r is Err ==> r->Err_0.view_fields().len() > 0,
{
    match extract_script_block(source) {
        Ok(Some(content)) => match parse_content(content.as_str()) {
            Ok(found) => Ok(Some(found)),
            Err(error) => Err(error),
        },
        Ok(None) => Ok(None),
        Err(MultipleBlocks) => Err(
            Pep723Error::one(
                InvalidField::explained(
                    "".to_owned(),
                    "multiple `# /// script` metadata blocks found (PEP 723 permits at most one)".to_owned(),
                ),
            ),
        ),
    }
}

proof fn requirement_failures(reads: Seq<ReadView>)
    ensures
        gather_requirements(reads).1.len() == failures(reads),
    decreases reads.len(),
{
    if reads.len() > 0 {
        requirement_failures(reads.drop_last());
    }
}

proof fn spec_failures(reads: Seq<SpecReadView>)
    ensures
        gather_specs(reads).1.len() == failures(reads),
    decreases reads.len(),
{
    if reads.len() > 0 {
        spec_failures(reads.drop_last());
    }
}

/// Once the structure of a block has been found in order, it is taken where
/// all of its dependencies can be read; where some cannot, every one of them
/// is reported.
pub proof fn every_failure_is_reported(
    s: ScriptSectionsView,
    requirements: Seq<ReadView>,
    specs: Seq<SpecReadView>,
)
    ensures
        match script(s, requirements, specs) {
            Ok(_) => failures(requirements) == 0 && failures(specs) == 0,
            Err(fields) => fields.len() > 0 && fields.len() == failures(requirements) + failures(
                specs,
            ),
        },
{
    requirement_failures(requirements);
    spec_failures(specs);
}

/// What a block declares where all of it can be read: its dependency
/// specifiers and then its match specs, in order, and the Python versions and
/// channels of its sections.
pub proof fn script_says_what_was_read(
    s: ScriptSectionsView,
    requirements: Seq<ReadView>,
    specs: Seq<SpecReadView>,
)
    requires
        forall|i: int| 0 <= i < requirements.len() ==> (#[trigger] requirements[i]) is Ok,
        forall|i: int| 0 <= i < specs.len() ==> (#[trigger] specs[i]) is Ok,
    ensures
        ({
            let found = script(s, requirements, specs);
            &&& found is Ok
            &&& found->Ok_0.requires_python == s.requires_python
            &&& found->Ok_0.channels == s.channels
            &&& found->Ok_0.dependencies.len() == requirements.len() + specs.len()
            &&& forall|i: int|
                0 <= i < requirements.len() ==> #[trigger] found->Ok_0.dependencies[i]
                    == DependencyView::Pep508(requirements[i]->Ok_0)
            &&& forall|i: int|
                0 <= i < specs.len() ==> #[trigger] found->Ok_0.dependencies[requirements.len() + i]
                    == DependencyView::Matchspec(specs[i]->Ok_0)
        }),
{
    requirements_gathered(requirements);
    specs_gathered(specs);
}

proof fn requirements_gathered(reads: Seq<ReadView>)
    requires
        forall|i: int| 0 <= i < reads.len() ==> (#[trigger] reads[i]) is Ok,
    ensures
        gather_requirements(reads).1.len() == 0,
        gather_requirements(reads).0.len() == reads.len(),
        forall|i: int|
            0 <= i < reads.len() ==> #[trigger] gather_requirements(reads).0[i]
                == DependencyView::Pep508(reads[i]->Ok_0),
    decreases reads.len(),
{
    if reads.len() > 0 {
        let front = reads.drop_last();
        assert forall|i: int| 0 <= i < front.len() implies (#[trigger] front[i]) is Ok by {
            assert(front[i] == reads[i]);
        }
        requirements_gathered(front);
        assert(reads[reads.len() - 1] is Ok);
        let list = gather_requirements(front).0;
        assert forall|i: int| 0 <= i < reads.len() implies #[trigger] gather_requirements(
            reads,
        ).0[i] == DependencyView::Pep508(reads[i]->Ok_0) by {
            if i < front.len() {
                assert(gather_requirements(reads).0[i] == list[i]);
                assert(front[i] == reads[i]);
            }
        }
    }
}

proof fn specs_gathered(reads: Seq<SpecReadView>)
    requires
        forall|i: int| 0 <= i < reads.len() ==> (#[trigger] reads[i]) is Ok,
    ensures
        gather_specs(reads).1.len() == 0,
        gather_specs(reads).0.len() == reads.len(),
        forall|i: int|
            0 <= i < reads.len() ==> #[trigger] gather_specs(reads).0[i]
                == DependencyView::Matchspec(reads[i]->Ok_0),
    decreases reads.len(),
{
    if reads.len() > 0 {
        let front = reads.drop_last();
        assert forall|i: int| 0 <= i < front.len() implies (#[trigger] front[i]) is Ok by {
            assert(front[i] == reads[i]);
        }
        specs_gathered(front);
        assert(reads[reads.len() - 1] is Ok);
        let list = gather_specs(front).0;
        assert forall|i: int| 0 <= i < reads.len() implies #[trigger] gather_specs(reads).0[i]
            == DependencyView::Matchspec(reads[i]->Ok_0) by {
            if i < front.len() {
                assert(gather_specs(reads).0[i] == list[i]);
                assert(front[i] == reads[i]);
            }
        }
    }
}

/// A dependency or match spec of a block that could not be read is reported
/// with its position in its list and the reason, behind those before it.
pub proof fn failures_are_reported_in_place(
    reads: Seq<ReadView>,
    specs: Seq<SpecReadView>,
    message: Seq<char>,
)
    ensures
        gather_requirements(reads.push(Err(message))).1 == gather_requirements(reads).1.push(
            FieldView {
                path: "dependencies"@ + "["@ + crate::text::decimal(reads.len()) + "]"@,
                description: Some(message),
            },
        ),
        gather_specs(specs.push(Err(message))).1 == gather_specs(specs).1.push(
            FieldView {
                path: "tool.ana.matchspec-dependencies"@ + "["@ + crate::text::decimal(specs.len())
                    + "]"@,
                description: Some(message),
            },
        ),
{
    assert(reads.push(Err(message)).drop_last() =~= reads);
    assert(specs.push(Err(message)).drop_last() =~= specs);
}

/// The sections of a block are what stands in it: the specifiers that the
/// text under `requires-python` spells, the strings under `dependencies`, and
/// the channels and match specs of `[tool.ana]`.
pub proof fn sections_are_the_fields(t: Seq<char>)
    ensures
        ({
            let python = toml_at(t, seq![crate::toml::PathStepView::Key("requires-python"@)]);
            let listed = toml_at(t, seq![crate::toml::PathStepView::Key("dependencies"@)]);
            let sound = toml_error(t) is None && (python is Absent || (python is Text
                && specifiers_outcome(python->Text_0) is Ok)) && channels_field(t) is Ok && (
            listed is Absent || (listed is Array && forall|i: int|
                0 <= i < listed->Array_0.len() ==> (#[trigger] listed->Array_0[i]) is Some))
                && matchspecs_field(t) is Ok;
            match sections_of(t) {
                Ok(s) => {
                    &&& sound
                    &&& s.requires_python is Some <==> python is Text
                    &&& python is Text ==> specifiers_outcome(python->Text_0) == Ok::<
                        Seq<SpecifierView>,
                        Seq<char>,
                    >(s.requires_python->0)
                    &&& channels_field(t)->Ok_0 == s.channels
                    &&& matchspecs_field(t)->Ok_0 == s.matchspecs
                    &&& listed is Absent ==> s.dependencies.len() == 0
                    &&& listed is Array ==> s.dependencies.len() == listed->Array_0.len()
                        && forall|i: int|
                        0 <= i < s.dependencies.len() ==> #[trigger] listed->Array_0[i] == Some(
                            s.dependencies[i],
                        )
                },
                Err(_) => !sound,
            }
        }),
{
    let listed = toml_at(t, keys1("dependencies"@));
    if listed is Array {
        crate::fields::strings_are_read_in_place(listed->Array_0, "dependencies"@);
    }
}

/// Invalid fields of a block are shown one per line, indented, each with its
/// place and the reason if there is one; a second block is a problem of the
/// metadata as a whole.
pub proof fn fields_are_shown_line_by_line(fields: Seq<FieldView>, field: FieldView)
    ensures
        fields_text(Seq::empty()) == "invalid PEP 723 script metadata:\n"@,
        fields_text(fields.push(field)) == fields_text(fields) + "  "@ + field_text(field) + "\n"@,
        ({
            let place = if field.path.len() == 0 {
                "script metadata"@
            } else {
                field.path
            };
            &&& field.description is Some ==> field_text(field) == place + " not valid: "@
                + field.description->0
            &&& field.description is None ==> field_text(field) == place + " not valid"@
        }),
        multiple_blocks_field().path.len() == 0,
        multiple_blocks_field().description == Some(
            "multiple `# /// script` metadata blocks found (PEP 723 permits at most one)"@,
        ),
{
    reveal_strlit("");
    assert(fields.push(field).drop_last() =~= fields);
}

/// Of the fields of a block the first that is wrong is reported: the block
/// itself, the Python versions, the channels, the dependencies and the match
/// specs, in that order, each under its own path.
pub proof fn first_wrong_field_is_reported(t: Seq<char>)
    ensures
        ({
            let python = toml_at(t, seq![crate::toml::PathStepView::Key("requires-python"@)]);
            let listed = toml_at(t, seq![crate::toml::PathStepView::Key("dependencies"@)]);
            let whole = toml_error(t) is None;
            let versions = whole && requires_python_field(t) is Ok;
            let channels = versions && channels_field(t) is Ok;
            let names = channels && dependencies_field(t) is Ok;
            let found = sections_of(t);
            &&& !whole ==> found is Err && found->Err_0.path.len() == 0
                && found->Err_0.description == toml_error(t)
            &&& whole && python is Text && specifiers_outcome(python->Text_0) is Err ==> found
                == Err::<ScriptSectionsView, FieldView>(
                FieldView {
                    path: "requires-python"@,
                    description: Some(specifiers_outcome(python->Text_0)->Err_0),
                },
            )
            &&& whole && !(python is Text) && !(python is Absent) ==> found == Err::<
                ScriptSectionsView,
                FieldView,
            >(FieldView { path: "requires-python"@, description: None })
            &&& versions && !channels ==> found == Err::<ScriptSectionsView, FieldView>(
                channels_field(t)->Err_0,
            )
            &&& channels && !(listed is Array) && !(listed is Absent) ==> found == Err::<
                ScriptSectionsView,
                FieldView,
            >(FieldView { path: "dependencies"@, description: None })
            &&& channels && listed is Array && strings_of(listed->Array_0, "dependencies"@) is Err
                ==> found == Err::<ScriptSectionsView, FieldView>(
                strings_of(listed->Array_0, "dependencies"@)->Err_0,
            )
            &&& names && matchspecs_field(t) is Err ==> found == Err::<
                ScriptSectionsView,
                FieldView,
            >(matchspecs_field(t)->Err_0)
        }),
{
    reveal_strlit("");
}

/// Whether the dependencies of a script are what reading the given texts may
/// give: the specifiers and then the match specs, in order.
pub open spec fn are_dependencies(
    texts: Seq<Seq<char>>,
    specs: Seq<Seq<char>>,
    found: Seq<DependencyView>,
) -> bool {
    &&& found.len() == texts.len() + specs.len()
    &&& forall|i: int|
        0 <= i < texts.len() ==> (#[trigger] found[i]) is Pep508
            && crate::pep508::may_be_read(texts[i], Ok(found[i]->Pep508_0))
    &&& forall|i: int|
        0 <= i < specs.len() ==> (#[trigger] found[texts.len() + i]) is Matchspec && (
        crate::conda::is_fixed_spec(specs[i]) ==> crate::conda::conda_matchspec(specs[i]) == Ok::<
            crate::conda::DeclaredSpecView,
            Seq<char>,
        >(found[texts.len() + i]->Matchspec_0))
}

/// A script that was read says what its block does: the Python versions and
/// channels of the sections, and what reading each of the texts in them gave.
pub proof fn script_is_read_from_its_block(
    content: Seq<char>,
    r: Result<ScriptRequirements, Pep723Error>,
)
    requires
        is_read_from(content, r),
    ensures
        sections_of(content) is Err ==> r is Err && r->Err_0.view_fields() == seq![
            sections_of(content)->Err_0,
        ],
        r is Ok ==> {
            let sections = sections_of(content)->Ok_0;
            let found = r->Ok_0.deep_view();
            &&& sections_of(content) is Ok
            &&& found.requires_python == sections.requires_python
            &&& found.channels == sections.channels
            &&& are_dependencies(sections.dependencies, sections.matchspecs, found.dependencies)
        },
        r is Err && sections_of(content) is Ok ==> r->Err_0.view_fields().len() > 0,
{
    if sections_of(content) is Ok {
        let sections = sections_of(content)->Ok_0;
        let (requirements, specs) = choose|
            requirements: Seq<ReadView>,
            specs: Seq<SpecReadView>,
        |
            #![trigger script(sections, requirements, specs)]
            are_read(sections.dependencies, requirements) && specs_are_read(
                sections.matchspecs,
                specs,
            ) && script_outcome(r) == script(sections, requirements, specs);
        if r is Ok {
            no_failures_no_errors(requirements);
            no_spec_failures_no_errors(specs);
            requirements_gathered(requirements);
            specs_gathered(specs);
            let found = r->Ok_0.deep_view().dependencies;
            let n = requirements.len();
            assert forall|i: int| 0 <= i < n implies (#[trigger] found[i]) is Pep508
                && crate::pep508::may_be_read(
                sections.dependencies[i],
                Ok(found[i]->Pep508_0),
            ) by {
                assert(found[i] == gather_requirements(requirements).0[i]);
                assert(requirements[i] is Ok);
            }
            assert forall|i: int| 0 <= i < specs.len() implies (#[trigger] found[n + i])
                is Matchspec && (crate::conda::is_fixed_spec(sections.matchspecs[i])
                ==> crate::conda::conda_matchspec(sections.matchspecs[i]) == Ok::<
                crate::conda::DeclaredSpecView,
                Seq<char>,
            >(found[n + i]->Matchspec_0)) by {
                assert(found[n + i] == gather_specs(specs).0[i]);
                assert(specs[i] is Ok);
            }
        }
    }
}

proof fn no_failures_no_errors(reads: Seq<ReadView>)
    requires
        gather_requirements(reads).1.len() == 0,
    ensures
        forall|i: int| 0 <= i < reads.len() ==> (#[trigger] reads[i]) is Ok,
    decreases reads.len(),
{
    if reads.len() > 0 {
        let front = reads.drop_last();
        no_failures_no_errors(front);
        assert forall|i: int| 0 <= i < reads.len() implies (#[trigger] reads[i]) is Ok by {
            if i < front.len() {
                assert(front[i] == reads[i]);
            }
        }
    }
}

proof fn no_spec_failures_no_errors(reads: Seq<SpecReadView>)
    requires
        gather_specs(reads).1.len() == 0,
    ensures
        forall|i: int| 0 <= i < reads.len() ==> (#[trigger] reads[i]) is Ok,
    decreases reads.len(),
{
    if reads.len() > 0 {
        let front = reads.drop_last();
        no_spec_failures_no_errors(front);
        assert forall|i: int| 0 <= i < reads.len() implies (#[trigger] reads[i]) is Ok by {
            if i < front.len() {
                assert(front[i] == reads[i]);
            }
        }
    }
}

} // verus!
