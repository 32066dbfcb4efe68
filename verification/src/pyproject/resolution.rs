//! Resolves optional dependencies and dependency groups into flat lists,
//! free of self-references and of references to other groups.

use crate::data::{append_all, views, Duplicate};
use crate::dependency::{Dependency, DependencyView};
use crate::pep508::{Requirement, RequirementView};
use crate::table::{extension_keeps, Table, TableView};
use crate::text::{concat, concat3, decimal, decimal_of, same};
use vstd::prelude::*;
use vstd::string::*;

verus! {

/// How many references [`resolve`] follows in a row before it gives up.
pub const MAX_RESOLUTION_DEPTH: usize = 10;

/// One entry of a dependency group: a dependency, or a reference to another
/// group's entries.
#[derive(Debug, Clone, PartialEq, Eq)]
pub enum DependencyGroupSpecifier {
    Dependency(Dependency),
    IncludeGroup(String),
}

/// An entry of a dependency group as mathematical values.
pub enum GroupEntryView {
    Dependency(DependencyView),
    IncludeGroup(Seq<char>),
}

impl DeepView for DependencyGroupSpecifier {
    type V = GroupEntryView;

    open spec fn deep_view(&self) -> GroupEntryView {
        match self {
            DependencyGroupSpecifier::Dependency(dependency) => GroupEntryView::Dependency(
                dependency.deep_view(),
            ),
            DependencyGroupSpecifier::IncludeGroup(name) => GroupEntryView::IncludeGroup(name@),
        }
    }
}

impl Duplicate for DependencyGroupSpecifier {
    fn duplicate(&self) -> (r: Self) {
        match self {
            DependencyGroupSpecifier::Dependency(dependency) =>
                DependencyGroupSpecifier::Dependency(dependency.duplicate()),
            DependencyGroupSpecifier::IncludeGroup(name) => DependencyGroupSpecifier::IncludeGroup(
                name.clone(),
            ),
        }
    }
}

/// An extra or a dependency group.
#[derive(Debug, Clone, PartialEq, Eq)]
pub enum Item {
    Extra(String),
    Group(String),
}

/// An extra or a dependency group as mathematical values.
pub enum ItemView {
    Extra(Seq<char>),
    Group(Seq<char>),
}

impl DeepView for Item {
    type V = ItemView;

    open spec fn deep_view(&self) -> ItemView {
        match self {
            Item::Extra(name) => ItemView::Extra(name@),
            Item::Group(name) => ItemView::Group(name@),
        }
    }
}

impl Duplicate for Item {
    fn duplicate(&self) -> (r: Self) {
        match self {
            Item::Extra(name) => Item::Extra(name.clone()),
            Item::Group(name) => Item::Group(name.clone()),
        }
    }
}

/// How an item is shown.
pub open spec fn item_text(item: ItemView) -> Seq<char> {
    match item {
        ItemView::Extra(name) => "extra:"@ + name,
        ItemView::Group(name) => "group:"@ + name,
    }
}

impl Item {
    /// How the item is shown: `extra:<name>` or `group:<name>`.
    pub fn to_string(&self) -> (r: String)
        ensures
            r@ == item_text(self.deep_view()),
    {
        match self {
            Item::Extra(name) => concat("extra:", name.as_str()),
            Item::Group(name) => concat("group:", name.as_str()),
        }
    }
}

/// Whether two items are the same.
fn same_item(a: &Item, b: &Item) -> (r: bool)
    ensures
        r == (a.deep_view() == b.deep_view()),
{
    match (a, b) {
        (Item::Extra(x), Item::Extra(y)) => same(x.as_str(), y.as_str()),
        (Item::Group(x), Item::Group(y)) => same(x.as_str(), y.as_str()),
        _ => false,
    }
}

/// Whether an item stands in a list.
fn holds_item(items: &Vec<Item>, item: &Item) -> (r: bool)
    ensures
        r == items.deep_view().contains(item.deep_view()),
{
    let mut i: usize = 0;
    while i < items.len()
        invariant
            i <= items.len(),
            forall|k: int| 0 <= k < i ==> items.deep_view()[k] != item.deep_view(),
        decreases items.len() - i,
    {
        assert(items.deep_view()[i as int] == items@[i as int].deep_view());
        if same_item(&items[i], item) {
            return true;
        }
        i += 1;
    }
    false
}

/// The top-level sections that [`resolve`] walks, in that order.
#[derive(Debug, Clone, Copy, PartialEq, Eq, Structural)]
pub enum Section {
    /// `[project.optional-dependencies]`.
    OptionalDependencies,
    /// `[dependency-groups]`.
    DependencyGroups,
}

/// The items through which references were followed until one led back to an
/// item among them.
#[derive(Debug)]
pub struct Cycle(pub Vec<Item>);

/// The items through which references were followed.
#[derive(Debug)]
pub struct Chain(pub Vec<Item>);

/// Why resolution failed.
#[derive(Debug)]
pub enum ResolveErrorKind {
    /// An extra that does not exist, and what refers to it.
    OptionalDependencyNotFound { name: String, included_by: Item },
    /// A group that does not exist, and what refers to it.
    DependencyGroupNotFound { name: String, included_by: Item },
    /// References that lead back to an item they were followed through.
    DependencyGroupCycle(Cycle),
    /// An item that does not exist and that nothing refers to.
    MissingParent(Item),
    /// A chain of references that is too long.
    MaxDepthExceeded { limit: usize, chain: Chain },
}

/// Why resolution failed, as mathematical values.
pub enum FailureView {
    ExtraNotFound(Seq<char>, ItemView),
    GroupNotFound(Seq<char>, ItemView),
    Cycle(Seq<ItemView>),
    MissingParent(ItemView),
    TooDeep(nat, Seq<ItemView>),
}

impl DeepView for ResolveErrorKind {
    type V = FailureView;

    open spec fn deep_view(&self) -> FailureView {
        match self {
            ResolveErrorKind::OptionalDependencyNotFound { name, included_by } =>
                FailureView::ExtraNotFound(name@, included_by.deep_view()),
            ResolveErrorKind::DependencyGroupNotFound { name, included_by } =>
                FailureView::GroupNotFound(name@, included_by.deep_view()),
            ResolveErrorKind::DependencyGroupCycle(cycle) => FailureView::Cycle(
                cycle.0.deep_view(),
            ),
            ResolveErrorKind::MissingParent(item) => FailureView::MissingParent(item.deep_view()),
            ResolveErrorKind::MaxDepthExceeded { limit, chain } => FailureView::TooDeep(
                *limit as nat,
                chain.0.deep_view(),
            ),
        }
    }
}

/// A failed resolution: why it failed, and which section was being walked.
#[derive(Debug)]
pub struct ResolveError {
    pub kind: ResolveErrorKind,
    pub section: Section,
}

/// A chain of references as it is shown: `a -> b -> c`.
pub open spec fn chain_text(items: Seq<ItemView>) -> Seq<char>
    decreases items.len(),
{
    if items.len() == 0 {
        Seq::empty()
    } else if items.len() == 1 {
        item_text(items[0])
    } else {
        chain_text(items.drop_last()) + " -> "@ + item_text(items.last())
    }
}

/// A cycle of references as it is shown: a chain that ends where it starts.
pub open spec fn cycle_text(items: Seq<ItemView>) -> Seq<char> {
    if items.len() == 0 {
        Seq::empty()
    } else {
        chain_text(items) + " -> "@ + item_text(items[0])
    }
}

/// The message of a failure.
pub open spec fn failure_text(f: FailureView) -> Seq<char> {
    match f {
        FailureView::ExtraNotFound(name, by) => "Failed to find optional dependency `"@ + name
            + "` included by "@ + item_text(by),
        FailureView::GroupNotFound(name, by) => "Failed to find dependency group `"@ + name
            + "` included by "@ + item_text(by),
        FailureView::Cycle(items) => "Cycles are not supported: "@ + cycle_text(items),
        FailureView::MissingParent(item) =>
            "Internal error: no parent tracked while resolving unresolvable reference `"@
            + item_text(item) + "`"@,
        FailureView::TooDeep(limit, chain) => "maximum reference depth ("@ + decimal(limit)
            + ") exceeded while resolving: "@ + chain_text(chain),
    }
}

/// A chain of references as it is shown.
fn show_chain(items: &Vec<Item>) -> (r: String)
    ensures
        r@ == chain_text(items.deep_view()),
{
    let ghost all = items.deep_view();
    let mut out = String::new();
    let mut i: usize = 0;
    assert(out@ =~= chain_text(all.take(0)));
    while i < items.len()
        invariant
            i <= items.len(),
            all == items.deep_view(),
            out@ == chain_text(all.take(i as int)),
        decreases items.len() - i,
    {
        assert(all.take(i + 1).drop_last() =~= all.take(i as int));
        assert(all.take(i + 1).last() == items@[i as int].deep_view());
        let one = items[i].to_string();
        if i > 0 {
            out.append(" -> ");
        }
        out.append(one.as_str());
        i += 1;
        assert(out@ =~= chain_text(all.take(i as int)));
    }
    assert(all.take(i as int) =~= all);
    out
}

impl Chain {
    /// The chain as it is shown.
    pub fn to_string(&self) -> (r: String)
        ensures
            r@ == chain_text(self.0.deep_view()),
    {
        show_chain(&self.0)
    }
}

impl Cycle {
    /// The cycle as it is shown.
    pub fn to_string(&self) -> (r: String)
        ensures
            r@ == cycle_text(self.0.deep_view()),
    {
        let mut out = show_chain(&self.0);
        if self.0.len() > 0 {
            let first = self.0[0].to_string();
            out.append(" -> ");
            out.append(first.as_str());
        }
        out
    }
}

impl ResolveError {
    /// Which section was being walked when the failure was found.
    pub fn section(&self) -> (r: Section)
        ensures
            r == self.section,
    {
        self.section
    }

    /// The message of the failure.
    pub fn to_string(&self) -> (r: String)
        ensures
            r@ == failure_text(self.kind.deep_view()),
    {
        match &self.kind {
            ResolveErrorKind::OptionalDependencyNotFound { name, included_by } => {
                let head = concat3(
                    "Failed to find optional dependency `",
                    name.as_str(),
                    "` included by ",
                );
                let by = included_by.to_string();
                concat(head.as_str(), by.as_str())
            },
            ResolveErrorKind::DependencyGroupNotFound { name, included_by } => {
                let head = concat3(
                    "Failed to find dependency group `",
                    name.as_str(),
                    "` included by ",
                );
                let by = included_by.to_string();
                concat(head.as_str(), by.as_str())
            },
            ResolveErrorKind::DependencyGroupCycle(cycle) => {
                let shown = cycle.to_string();
                concat("Cycles are not supported: ", shown.as_str())
            },
            ResolveErrorKind::MissingParent(item) => {
                let shown = item.to_string();
                concat3(
                    "Internal error: no parent tracked while resolving unresolvable reference `",
                    shown.as_str(),
                    "`",
                )
            },
            ResolveErrorKind::MaxDepthExceeded { limit, chain } => {
                let number = decimal_of(*limit as u128);
                let head = concat3(
                    "maximum reference depth (",
                    number.as_str(),
                    ") exceeded while resolving: ",
                );
                let shown = chain.to_string();
                concat(head.as_str(), shown.as_str())
            },
        }
    }
}

/// Optional dependencies and dependency groups, resolved into flat lists.
#[derive(Debug)]
pub struct ResolvedDependencies {
    /// Each extra's list of dependency specifiers.
    pub optional_dependencies: Table<Vec<Requirement>>,
    /// Each group's list of dependencies.
    pub dependency_groups: Table<Vec<Dependency>>,
}

/// Resolved dependencies as mathematical values.
pub struct ResolvedView {
    pub extras: TableView<Seq<RequirementView>>,
    pub groups: TableView<Seq<DependencyView>>,
}

impl DeepView for ResolvedDependencies {
    type V = ResolvedView;

    open spec fn deep_view(&self) -> ResolvedView {
        ResolvedView {
            extras: self.optional_dependencies.deep_view(),
            groups: self.dependency_groups.deep_view(),
        }
    }
}

/// What a project declares: its name, if it has one, its extras and its
/// groups.
pub struct Declared {
    pub name: Option<Seq<char>>,
    pub extras: TableView<Seq<RequirementView>>,
    pub groups: TableView<Seq<GroupEntryView>>,
}

/// The names that have been resolved, in the order in which that happened.
pub struct Done {
    pub extras: Seq<Seq<char>>,
    pub groups: Seq<Seq<char>>,
}

impl Done {
    /// Whether an item has been resolved.
    pub open spec fn has(self, item: ItemView) -> bool {
        match item {
            ItemView::Extra(name) => self.extras.contains(name),
            ItemView::Group(name) => self.groups.contains(name),
        }
    }

    /// With one more item resolved.
    pub open spec fn with(self, item: ItemView) -> Done {
        match item {
            ItemView::Extra(name) => Done { extras: self.extras.push(name), ..self },
            ItemView::Group(name) => Done { groups: self.groups.push(name), ..self },
        }
    }
}

impl ResolvedView {
    /// The names that have been resolved.
    pub open spec fn done(self) -> Done {
        Done { extras: self.extras.keys, groups: self.groups.keys }
    }
}

/// The extras with the given names.
pub open spec fn extra_items(names: Seq<Seq<char>>) -> Seq<ItemView> {
    names.map_values(|name: Seq<char>| ItemView::Extra(name))
}

/// What a dependency specifier refers to: one that names the project itself
/// refers to each of its extras.
pub open spec fn requirement_refs(name: Option<Seq<char>>, r: RequirementView) -> Seq<ItemView> {
    if name == Some(r.name) {
        extra_items(r.extras)
    } else {
        Seq::empty()
    }
}

/// What a group entry refers to.
pub open spec fn entry_refs(name: Option<Seq<char>>, e: GroupEntryView) -> Seq<ItemView> {
    match e {
        GroupEntryView::Dependency(DependencyView::Pep508(r)) => requirement_refs(name, r),
        GroupEntryView::Dependency(DependencyView::Matchspec(_)) => Seq::empty(),
        GroupEntryView::IncludeGroup(group) => seq![ItemView::Group(group)],
    }
}

/// What the specifiers of an extra refer to, in order.
pub open spec fn extra_refs(name: Option<Seq<char>>, list: Seq<RequirementView>) -> Seq<ItemView>
    decreases list.len(),
{
    if list.len() == 0 {
        Seq::empty()
    } else {
        requirement_refs(name, list[0]) + extra_refs(name, list.drop_first())
    }
}

/// What the entries of a group refer to, in order.
pub open spec fn group_refs(name: Option<Seq<char>>, list: Seq<GroupEntryView>) -> Seq<ItemView>
    decreases list.len(),
{
    if list.len() == 0 {
        Seq::empty()
    } else {
        entry_refs(name, list[0]) + group_refs(name, list.drop_first())
    }
}

impl Declared {
    /// Whether an item is declared.
    pub open spec fn has(self, item: ItemView) -> bool {
        match item {
            ItemView::Extra(name) => self.extras.has(name),
            ItemView::Group(name) => self.groups.has(name),
        }
    }

    /// What a declared item refers to, in order.
    pub open spec fn refs(self, item: ItemView) -> Seq<ItemView> {
        match item {
            ItemView::Extra(name) => extra_refs(self.name, self.extras.at(name)),
            ItemView::Group(name) => group_refs(self.name, self.groups.at(name)),
        }
    }
}

/// How many more references may be followed after the given ones.
pub open spec fn room(parents: Seq<ItemView>) -> int {
    if parents.len() < MAX_RESOLUTION_DEPTH {
        MAX_RESOLUTION_DEPTH - parents.len()
    } else {
        0
    }
}

/// What has been resolved once an item is, or why it cannot be. What was
/// resolved before is not walked again; `parents` are the items whose
/// references led here.
pub open spec fn walk(d: Declared, item: ItemView, done: Done, parents: Seq<ItemView>) -> Result<
    Done,
    FailureView,
>
    decreases room(parents), 0int,
{
    if done.has(item) {
        Ok(done)
    } else if !d.has(item) {
        if parents.len() == 0 {
            Err(FailureView::MissingParent(item))
        } else {
            match item {
                ItemView::Extra(name) => Err(FailureView::ExtraNotFound(name, parents.last())),
                ItemView::Group(name) => Err(FailureView::GroupNotFound(name, parents.last())),
            }
        }
    } else if parents.contains(item) {
        Err(FailureView::Cycle(parents))
    } else if parents.len() >= MAX_RESOLUTION_DEPTH {
        Err(FailureView::TooDeep(MAX_RESOLUTION_DEPTH as nat, parents))
    } else {
        match walk_all(d, d.refs(item), done, parents.push(item)) {
            Ok(after) => Ok(after.with(item)),
            Err(failure) => Err(failure),
        }
    }
}

/// What has been resolved once the items are, one after the other, or why
/// the first that cannot be resolved cannot.
pub open spec fn walk_all(
    d: Declared,
    items: Seq<ItemView>,
    done: Done,
    parents: Seq<ItemView>,
) -> Result<Done, FailureView>
    decreases room(parents), items.len() + 1,
{
    if items.len() == 0 {
        Ok(done)
    } else {
        match walk(d, items[0], done, parents) {
            Ok(after) => walk_all(d, items.drop_first(), after, parents),
            Err(failure) => Err(failure),
        }
    }
}

/// The lists of the named extras, one after the other.
pub open spec fn lists_of(
    names: Seq<Seq<char>>,
    extras: TableView<Seq<RequirementView>>,
) -> Seq<RequirementView>
    decreases names.len(),
{
    if names.len() == 0 {
        Seq::empty()
    } else {
        lists_of(names.drop_last(), extras) + extras.at(names.last())
    }
}

/// What a dependency specifier stands for: one that names the project
/// itself stands for the lists of its extras, any other for itself.
pub open spec fn requirement_value(
    name: Option<Seq<char>>,
    r: RequirementView,
    extras: TableView<Seq<RequirementView>>,
) -> Seq<RequirementView> {
    if name == Some(r.name) {
        lists_of(r.extras, extras)
    } else {
        seq![r]
    }
}

/// What the specifiers of an extra stand for, in order.
pub open spec fn extra_value(
    name: Option<Seq<char>>,
    list: Seq<RequirementView>,
    extras: TableView<Seq<RequirementView>>,
) -> Seq<RequirementView>
    decreases list.len(),
{
    if list.len() == 0 {
        Seq::empty()
    } else {
        extra_value(name, list.drop_last(), extras) + requirement_value(name, list.last(), extras)
    }
}

/// Dependency specifiers as dependencies.
pub open spec fn as_dependencies(list: Seq<RequirementView>) -> Seq<DependencyView> {
    list.map_values(|r: RequirementView| DependencyView::Pep508(r))
}

/// What a group entry stands for: a reference to a group stands for that
/// group's list, a match spec for itself, and a specifier for what it
/// stands for in an extra.
pub open spec fn entry_value(
    name: Option<Seq<char>>,
    e: GroupEntryView,
    extras: TableView<Seq<RequirementView>>,
    groups: TableView<Seq<DependencyView>>,
) -> Seq<DependencyView> {
    match e {
        GroupEntryView::Dependency(DependencyView::Pep508(r)) => as_dependencies(
            requirement_value(name, r, extras),
        ),
        GroupEntryView::Dependency(DependencyView::Matchspec(spec)) => seq![
            DependencyView::Matchspec(spec),
        ],
        GroupEntryView::IncludeGroup(group) => groups.at(group),
    }
}

/// What the entries of a group stand for, in order.
pub open spec fn group_value(
    name: Option<Seq<char>>,
    list: Seq<GroupEntryView>,
    extras: TableView<Seq<RequirementView>>,
    groups: TableView<Seq<DependencyView>>,
) -> Seq<DependencyView>
    decreases list.len(),
{
    if list.len() == 0 {
        Seq::empty()
    } else {
        group_value(name, list.drop_last(), extras, groups) + entry_value(
            name,
            list.last(),
            extras,
            groups,
        )
    }
}

/// Whether every item has been resolved.
pub open spec fn all_done(items: Seq<ItemView>, done: Done) -> bool {
    forall|i: int| 0 <= i < items.len() ==> done.has(#[trigger] items[i])
}

/// Whether every resolved name is declared, refers only to names resolved
/// before it, and has as its list what its entries stand for. As no name
/// rests on itself, this leaves one list for each.
pub open spec fn is_expansion(d: Declared, r: ResolvedView) -> bool {
    &&& r.extras.wf()
    &&& r.groups.wf()
    &&& forall|i: int|
        0 <= i < r.extras.keys.len() ==> {
            let name = #[trigger] r.extras.keys[i];
            &&& d.extras.has(name)
            &&& all_done(
                d.refs(ItemView::Extra(name)),
                Done { extras: r.extras.keys.take(i), groups: Seq::empty() },
            )
            &&& r.extras.items[i] == extra_value(d.name, d.extras.at(name), r.extras)
        }
    &&& forall|i: int|
        0 <= i < r.groups.keys.len() ==> {
            let name = #[trigger] r.groups.keys[i];
            &&& d.groups.has(name)
            &&& all_done(
                d.refs(ItemView::Group(name)),
                Done { extras: r.extras.keys, groups: r.groups.keys.take(i) },
            )
            &&& r.groups.items[i] == group_value(d.name, d.groups.at(name), r.extras, r.groups)
        }
}

/// The extras and then the groups of a project, in the order in which they
/// are declared.
pub open spec fn resolution(d: Declared) -> Result<Done, (FailureView, Section)> {
    match walk_all(
        d,
        extra_items(d.extras.keys),
        Done { extras: Seq::empty(), groups: Seq::empty() },
        Seq::empty(),
    ) {
        Err(failure) => Err((failure, Section::OptionalDependencies)),
        Ok(done) => match walk_all(d, group_items(d.groups.keys), done, Seq::empty()) {
            Err(failure) => Err((failure, Section::DependencyGroups)),
            Ok(all) => Ok(all),
        },
    }
}

/// The groups with the given names.
pub open spec fn group_items(names: Seq<Seq<char>>) -> Seq<ItemView> {
    names.map_values(|name: Seq<char>| ItemView::Group(name))
}

/// Walking two lists of items in a row is walking the one, then the other.
proof fn walk_concat(
    d: Declared,
    a: Seq<ItemView>,
    b: Seq<ItemView>,
    done: Done,
    parents: Seq<ItemView>,
)
    ensures
        walk_all(d, a + b, done, parents) == match walk_all(d, a, done, parents) {
            Ok(after) => walk_all(d, b, after, parents),
            Err(failure) => Err(failure),
        },
    decreases a.len(),
{
    if a.len() == 0 {
        assert(a + b =~= b);
    } else {
        assert((a + b)[0] == a[0]);
        assert((a + b).drop_first() =~= a.drop_first() + b);
        if let Ok(after) = walk(d, a[0], done, parents) {
            walk_concat(d, a.drop_first(), b, after, parents);
        }
    }
}

/// An item that is being walked is not resolved by walking what it refers
/// to.
proof fn walk_spares_parents(
    d: Declared,
    item: ItemView,
    done: Done,
    parents: Seq<ItemView>,
    p: ItemView,
)
    requires
        parents.contains(p),
        !done.has(p),
    ensures
        match walk(d, item, done, parents) {
            Ok(after) => !after.has(p),
            Err(_) => true,
        },
    decreases room(parents), 0int,
{
    if !done.has(item) && d.has(item) && !parents.contains(item) && parents.len()
        < MAX_RESOLUTION_DEPTH {
        let inner = parents.push(item);
        assert(inner.contains(p)) by {
            let i = parents.index_of(p);
            assert(inner[i] == p);
        }
        walk_all_spares_parents(d, d.refs(item), done, inner, p);
        if let Ok(after) = walk_all(d, d.refs(item), done, inner) {
            assert(p != item);
            done_with(after, item, p);
        }
    }
}

proof fn walk_all_spares_parents(
    d: Declared,
    items: Seq<ItemView>,
    done: Done,
    parents: Seq<ItemView>,
    p: ItemView,
)
    requires
        parents.contains(p),
        !done.has(p),
    ensures
        match walk_all(d, items, done, parents) {
            Ok(after) => !after.has(p),
            Err(_) => true,
        },
    decreases room(parents), items.len() + 1,
{
    if items.len() > 0 {
        walk_spares_parents(d, items[0], done, parents, p);
        if let Ok(after) = walk(d, items[0], done, parents) {
            walk_all_spares_parents(d, items.drop_first(), after, parents, p);
        }
    }
}

/// One more resolved item is the only change to what has been resolved.
proof fn done_with(done: Done, item: ItemView, p: ItemView)
    ensures
        done.with(item).has(p) <==> done.has(p) || p == item,
{
    match item {
        ItemView::Extra(name) => {
            let after = done.extras.push(name);
            assert(after[done.extras.len() as int] == name);
            if let ItemView::Extra(q) = p {
                if done.extras.contains(q) {
                    let i = done.extras.index_of(q);
                    assert(after[i] == q);
                }
                if after.contains(q) {
                    let i = after.index_of(q);
                    if i < done.extras.len() {
                        assert(done.extras[i] == q);
                    }
                }
            }
        },
        ItemView::Group(name) => {
            let after = done.groups.push(name);
            assert(after[done.groups.len() as int] == name);
            if let ItemView::Group(q) = p {
                if done.groups.contains(q) {
                    let i = done.groups.index_of(q);
                    assert(after[i] == q);
                }
                if after.contains(q) {
                    let i = after.index_of(q);
                    if i < done.groups.len() {
                        assert(done.groups[i] == q);
                    }
                }
            }
        },
    }
}

/// What has been resolved stays resolved as more is.
proof fn all_done_grows(items: Seq<ItemView>, before: Done, after: Done)
    requires
        all_done(items, before),
        before.extras.is_prefix_of(after.extras),
        before.groups.is_prefix_of(after.groups),
    ensures
        all_done(items, after),
{
    assert forall|i: int| 0 <= i < items.len() implies after.has(#[trigger] items[i]) by {
        assert(before.has(items[i]));
        match items[i] {
            ItemView::Extra(name) => {
                let k = before.extras.index_of(name);
                assert(after.extras[k] == before.extras[k]);
            },
            ItemView::Group(name) => {
                let k = before.groups.index_of(name);
                assert(after.groups[k] == before.groups[k]);
            },
        }
    }
}

/// What a longer list of specifiers refers to.
proof fn extra_refs_push(name: Option<Seq<char>>, list: Seq<RequirementView>)
    requires
        list.len() > 0,
    ensures
        extra_refs(name, list) == extra_refs(name, list.drop_last()) + requirement_refs(
            name,
            list.last(),
        ),
    decreases list.len(),
{
    if list.len() == 1 {
        assert(list.drop_first() =~= Seq::empty());
        assert(list.drop_last() =~= Seq::empty());
        assert(extra_refs(name, list.drop_first()) =~= Seq::empty());
        assert(extra_refs(name, list.drop_last()) =~= Seq::empty());
        assert(list.last() == list[0]);
        assert(extra_refs(name, list) =~= requirement_refs(name, list[0]));
        assert(extra_refs(name, list.drop_last()) + requirement_refs(name, list.last())
            =~= requirement_refs(name, list[0]));
    } else {
        extra_refs_push(name, list.drop_first());
        assert(list.drop_first().drop_last() =~= list.drop_last().drop_first());
        assert(list.drop_first().last() == list.last());
        assert(list.drop_last()[0] == list[0]);
        assert(extra_refs(name, list) =~= extra_refs(name, list.drop_last()) + requirement_refs(
            name,
            list.last(),
        ));
    }
}

/// What a longer list of group entries refers to.
proof fn group_refs_push(name: Option<Seq<char>>, list: Seq<GroupEntryView>)
    requires
        list.len() > 0,
    ensures
        group_refs(name, list) == group_refs(name, list.drop_last()) + entry_refs(
            name,
            list.last(),
        ),
    decreases list.len(),
{
    if list.len() == 1 {
        assert(list.drop_first() =~= Seq::empty());
        assert(list.drop_last() =~= Seq::empty());
        assert(group_refs(name, list.drop_first()) =~= Seq::empty());
        assert(group_refs(name, list.drop_last()) =~= Seq::empty());
        assert(list.last() == list[0]);
        assert(group_refs(name, list) =~= entry_refs(name, list[0]));
        assert(group_refs(name, list.drop_last()) + entry_refs(name, list.last()) =~= entry_refs(
            name,
            list[0],
        ));
    } else {
        group_refs_push(name, list.drop_first());
        assert(list.drop_first().drop_last() =~= list.drop_last().drop_first());
        assert(list.drop_first().last() == list.last());
        assert(list.drop_last()[0] == list[0]);
        assert(group_refs(name, list) =~= group_refs(name, list.drop_last()) + entry_refs(
            name,
            list.last(),
        ));
    }
}

/// All items of two lists have been resolved exactly where those of each
/// have.
proof fn all_done_concat(a: Seq<ItemView>, b: Seq<ItemView>, done: Done)
    ensures
        all_done(a + b, done) <==> all_done(a, done) && all_done(b, done),
{
    let ab = a + b;
    if all_done(ab, done) {
        assert forall|i: int| 0 <= i < a.len() implies done.has(#[trigger] a[i]) by {
            assert(ab[i] == a[i]);
        }
        assert forall|i: int| 0 <= i < b.len() implies done.has(#[trigger] b[i]) by {
            assert(ab[a.len() + i] == b[i]);
        }
    }
    if all_done(a, done) && all_done(b, done) {
        assert forall|i: int| 0 <= i < ab.len() implies done.has(#[trigger] ab[i]) by {
            if i < a.len() {
                assert(done.has(a[i]));
            } else {
                assert(done.has(b[i - a.len()]));
            }
        }
    }
}

/// The lists of resolved extras stay what they are as more are resolved.
proof fn lists_of_stable(
    names: Seq<Seq<char>>,
    before: TableView<Seq<RequirementView>>,
    after: TableView<Seq<RequirementView>>,
)
    requires
        before.wf(),
        after.wf(),
        after.extends(before),
        forall|i: int| 0 <= i < names.len() ==> before.has(#[trigger] names[i]),
    ensures
        lists_of(names, after) == lists_of(names, before),
    decreases names.len(),
{
    if names.len() > 0 {
        let rest = names.drop_last();
        assert forall|i: int| 0 <= i < rest.len() implies before.has(#[trigger] rest[i]) by {
            assert(rest[i] == names[i]);
        }
        lists_of_stable(rest, before, after);
        extension_keeps(before, after, names.last());
    }
}

proof fn requirement_value_stable(
    name: Option<Seq<char>>,
    r: RequirementView,
    before: TableView<Seq<RequirementView>>,
    after: TableView<Seq<RequirementView>>,
    groups: Seq<Seq<char>>,
)
    requires
        before.wf(),
        after.wf(),
        after.extends(before),
        all_done(requirement_refs(name, r), Done { extras: before.keys, groups }),
    ensures
        requirement_value(name, r, after) == requirement_value(name, r, before),
{
    if name == Some(r.name) {
        let items = extra_items(r.extras);
        assert forall|i: int| 0 <= i < r.extras.len() implies before.has(
            #[trigger] r.extras[i],
        ) by {
            assert(items[i] == ItemView::Extra(r.extras[i]));
        }
        lists_of_stable(r.extras, before, after);
    }
}

proof fn extra_value_stable(
    name: Option<Seq<char>>,
    list: Seq<RequirementView>,
    before: TableView<Seq<RequirementView>>,
    after: TableView<Seq<RequirementView>>,
    groups: Seq<Seq<char>>,
)
    requires
        before.wf(),
        after.wf(),
        after.extends(before),
        all_done(extra_refs(name, list), Done { extras: before.keys, groups }),
    ensures
        extra_value(name, list, after) == extra_value(name, list, before),
    decreases list.len(),
{
    if list.len() > 0 {
        extra_refs_push(name, list);
        all_done_concat(
            extra_refs(name, list.drop_last()),
            requirement_refs(name, list.last()),
            Done { extras: before.keys, groups },
        );
        extra_value_stable(name, list.drop_last(), before, after, groups);
        requirement_value_stable(name, list.last(), before, after, groups);
    }
}

proof fn group_value_stable(
    name: Option<Seq<char>>,
    list: Seq<GroupEntryView>,
    before: ResolvedView,
    after: ResolvedView,
)
    requires
        before.extras.wf(),
        after.extras.wf(),
        after.extras.extends(before.extras),
        before.groups.wf(),
        after.groups.wf(),
        after.groups.extends(before.groups),
        all_done(group_refs(name, list), before.done()),
    ensures
        group_value(name, list, after.extras, after.groups) == group_value(
            name,
            list,
            before.extras,
            before.groups,
        ),
    decreases list.len(),
{
    if list.len() > 0 {
        group_refs_push(name, list);
        all_done_concat(
            group_refs(name, list.drop_last()),
            entry_refs(name, list.last()),
            before.done(),
        );
        group_value_stable(name, list.drop_last(), before, after);
        match list.last() {
            GroupEntryView::Dependency(DependencyView::Pep508(r)) => {
                requirement_value_stable(name, r, before.extras, after.extras, before.groups.keys);
            },
            GroupEntryView::Dependency(DependencyView::Matchspec(_)) => {},
            GroupEntryView::IncludeGroup(group) => {
                assert(entry_refs(name, list.last())[0] == ItemView::Group(group));
                extension_keeps(before.groups, after.groups, group);
            },
        }
    }
}

/// Resolving one more extra leaves an expansion.
proof fn expansion_with_extra(d: Declared, r: ResolvedView, name: Seq<char>, value: Seq<RequirementView>)
    requires
        is_expansion(d, r),
        d.extras.has(name),
        !r.extras.has(name),
        all_done(d.refs(ItemView::Extra(name)), r.done()),
        value == extra_value(d.name, d.extras.at(name), r.extras),
    ensures
        is_expansion(d, ResolvedView { extras: r.extras.with(name, value), ..r }),
{
    let after = ResolvedView { extras: r.extras.with(name, value), ..r };
    let keys = after.extras.keys;
    assert(after.extras.wf()) by {
        assert forall|i: int, j: int| 0 <= i < keys.len() && 0 <= j < keys.len() && i != j implies keys[i]
            != keys[j] by {
            if i == r.extras.keys.len() {
                assert(r.extras.keys.contains(r.extras.keys[j]));
            } else if j == r.extras.keys.len() {
                assert(r.extras.keys.contains(r.extras.keys[i]));
            }
        }
    }
    assert(after.extras.extends(r.extras));
    assert forall|i: int| 0 <= i < keys.len() implies {
        let key = #[trigger] keys[i];
        &&& d.extras.has(key)
        &&& all_done(
            d.refs(ItemView::Extra(key)),
            Done { extras: keys.take(i), groups: Seq::empty() },
        )
        &&& after.extras.items[i] == extra_value(d.name, d.extras.at(key), after.extras)
    } by {
        if i < r.extras.keys.len() {
            let key = r.extras.keys[i];
            assert(keys[i] == key);
            assert(keys.take(i) =~= r.extras.keys.take(i));
            all_done_grows(
                d.refs(ItemView::Extra(key)),
                Done { extras: r.extras.keys.take(i), groups: Seq::empty() },
                Done { extras: r.extras.keys, groups: Seq::empty() },
            );
            extra_value_stable(
                d.name,
                d.extras.at(key),
                r.extras,
                after.extras,
                Seq::empty(),
            );
        } else {
            assert(keys.take(i) =~= r.extras.keys);
            extra_refs_only_extras(d.name, d.extras.at(name), r.done(), Seq::empty());
            extra_value_stable(
                d.name,
                d.extras.at(name),
                r.extras,
                after.extras,
                Seq::empty(),
            );
        }
    }
    assert forall|i: int| 0 <= i < after.groups.keys.len() implies {
        let key = #[trigger] after.groups.keys[i];
        &&& d.groups.has(key)
        &&& all_done(
            d.refs(ItemView::Group(key)),
            Done { extras: keys, groups: after.groups.keys.take(i) },
        )
        &&& after.groups.items[i] == group_value(
            d.name,
            d.groups.at(key),
            after.extras,
            after.groups,
        )
    } by {
        let key = r.groups.keys[i];
        all_done_grows(
            d.refs(ItemView::Group(key)),
            Done { extras: r.extras.keys, groups: r.groups.keys.take(i) },
            Done { extras: keys, groups: r.groups.keys.take(i) },
        );
        all_done_grows(
            d.refs(ItemView::Group(key)),
            Done { extras: r.extras.keys, groups: r.groups.keys.take(i) },
            r.done(),
        );
        group_value_stable(d.name, d.groups.at(key), r, after);
    }
}

/// The specifiers of an extra refer to extras alone.
proof fn extra_refs_only_extras(
    name: Option<Seq<char>>,
    list: Seq<RequirementView>,
    done: Done,
    groups: Seq<Seq<char>>,
)
    requires
        all_done(extra_refs(name, list), done),
    ensures
        all_done(extra_refs(name, list), Done { groups, ..done }),
    decreases list.len(),
{
    let other = Done { groups, ..done };
    if list.len() > 0 {
        let first = requirement_refs(name, list[0]);
        let rest = extra_refs(name, list.drop_first());
        all_done_concat(first, rest, done);
        extra_refs_only_extras(name, list.drop_first(), done, groups);
        assert(all_done(first, other)) by {
            assert forall|i: int| 0 <= i < first.len() implies other.has(#[trigger] first[i]) by {
                assert(done.has(first[i]));
            }
        }
        all_done_concat(first, rest, other);
    }
}

/// Resolving one more group leaves an expansion.
proof fn expansion_with_group(d: Declared, r: ResolvedView, name: Seq<char>, value: Seq<DependencyView>)
    requires
        is_expansion(d, r),
        d.groups.has(name),
        !r.groups.has(name),
        all_done(d.refs(ItemView::Group(name)), r.done()),
        value == group_value(d.name, d.groups.at(name), r.extras, r.groups),
    ensures
        is_expansion(d, ResolvedView { groups: r.groups.with(name, value), ..r }),
{
    let after = ResolvedView { groups: r.groups.with(name, value), ..r };
    let keys = after.groups.keys;
    assert(after.groups.wf()) by {
        assert forall|i: int, j: int| 0 <= i < keys.len() && 0 <= j < keys.len() && i != j implies keys[i]
            != keys[j] by {
            if i == r.groups.keys.len() {
                assert(r.groups.keys.contains(r.groups.keys[j]));
            } else if j == r.groups.keys.len() {
                assert(r.groups.keys.contains(r.groups.keys[i]));
            }
        }
    }
    assert(after.groups.extends(r.groups));
    assert forall|i: int| 0 <= i < keys.len() implies {
        let key = #[trigger] keys[i];
        &&& d.groups.has(key)
        &&& all_done(
            d.refs(ItemView::Group(key)),
            Done { extras: after.extras.keys, groups: keys.take(i) },
        )
        &&& after.groups.items[i] == group_value(
            d.name,
            d.groups.at(key),
            after.extras,
            after.groups,
        )
    } by {
        if i < r.groups.keys.len() {
            let key = r.groups.keys[i];
            assert(keys[i] == key);
            assert(keys.take(i) =~= r.groups.keys.take(i));
            all_done_grows(
                d.refs(ItemView::Group(key)),
                Done { extras: r.extras.keys, groups: r.groups.keys.take(i) },
                r.done(),
            );
            group_value_stable(d.name, d.groups.at(key), r, after);
        } else {
            assert(keys.take(i) =~= r.groups.keys);
            group_value_stable(d.name, d.groups.at(name), r, after);
        }
    }
}

/// What is being resolved: the extras and groups of a project, and its name,
/// by which they refer to each other.
pub struct Resolver<'a> {
    pub name: Option<&'a str>,
    pub extras: &'a Table<Vec<Requirement>>,
    pub groups: &'a Table<Vec<DependencyGroupSpecifier>>,
}

/// The view of an optional text.
pub open spec fn text_view(s: Option<&str>) -> Option<Seq<char>> {
    match s {
        Some(t) => Some(t@),
        None => None,
    }
}

/// What one step of a resolution does: on success the tables grow, remain an
/// expansion and hold what has been walked; on failure it says why.
pub open spec fn steps_to(
    d: Declared,
    walked: Result<Done, FailureView>,
    before: ResolvedView,
    after: ResolvedView,
    r: Result<(), ResolveErrorKind>,
) -> bool {
    match r {
        Ok(_) => {
            &&& walked == Ok::<Done, FailureView>(after.done())
            &&& is_expansion(d, after)
            &&& after.extras.extends(before.extras)
            &&& after.groups.extends(before.groups)
        },
        Err(kind) => walked == Err::<Done, FailureView>(kind.deep_view()),
    }
}

impl<'a> Resolver<'a> {
    /// What the project declares.
    pub open spec fn declared(&self) -> Declared {
        Declared {
            name: text_view(self.name),
            extras: self.extras.deep_view(),
            groups: self.groups.deep_view(),
        }
    }

    /// Whether a dependency specifier names the project itself.
    fn is_self(&self, requirement: &Requirement) -> (r: bool)
        ensures
            r == (text_view(self.name) == Some(requirement.name@)),
    {
        match self.name {
            Some(name) => same(name, requirement.name.as_str()),
            None => false,
        }
    }

    /// Resolves one extra.
    pub fn resolve_optional_dependency(
        &self,
        extra: &str,
        resolved: &mut ResolvedDependencies,
        parents: &mut Vec<Item>,
    ) -> (r: Result<(), ResolveErrorKind>)
        requires
            old(resolved).deep_view().extras.has(extra@) || is_expansion(
                self.declared(),
                old(resolved).deep_view(),
            ),
        ensures
            is_expansion(self.declared(), old(resolved).deep_view()) ==> steps_to(
                self.declared(),
                walk(
                    self.declared(),
                    ItemView::Extra(extra@),
                    old(resolved).deep_view().done(),
                    old(parents).deep_view(),
                ),
                old(resolved).deep_view(),
                final(resolved).deep_view(),
                r,
            ),
            r is Ok ==> final(resolved).deep_view().groups == old(resolved).deep_view().groups,
            r is Ok ==> final(resolved).deep_view().extras.has(extra@),
            r is Ok ==> final(parents).deep_view() == old(parents).deep_view(),
            old(resolved).deep_view().extras.has(extra@) ==> r is Ok && final(resolved).deep_view()
                == old(resolved).deep_view() && final(parents).deep_view() == old(
                parents,
            ).deep_view(),
        decreases room(old(parents).deep_view()), 0int,
    {
        let ghost d = self.declared();
        let ghost before = resolved.deep_view();
        let ghost outer = parents.deep_view();
        let ghost here = ItemView::Extra(extra@);
        if let Some(_) = resolved.optional_dependencies.get(extra) {
            return Ok(());
        }
        let list = match self.extras.get(extra) {
            Some(list) => list,
            None => {
                if parents.len() == 0 {
                    return Err(ResolveErrorKind::MissingParent(Item::Extra(extra.to_owned())));
                }
                let included_by = parents[parents.len() - 1].duplicate();
                assert(outer.last() == included_by.deep_view());
                return Err(
                    ResolveErrorKind::OptionalDependencyNotFound {
                        name: extra.to_owned(),
                        included_by,
                    },
                );
            },
        };
        let item = Item::Extra(extra.to_owned());
        if holds_item(parents, &item) {
            return Err(ResolveErrorKind::DependencyGroupCycle(Cycle(parents.duplicate())));
        }
        if parents.len() >= MAX_RESOLUTION_DEPTH {
            return Err(
                ResolveErrorKind::MaxDepthExceeded {
                    limit: MAX_RESOLUTION_DEPTH,
                    chain: Chain(parents.duplicate()),
                },
            );
        }
        parents.push(item);
        let ghost inner = outer.push(here);
        assert(parents.deep_view() =~= inner);
        let ghost entries = list.deep_view();
        let ghost refs = extra_refs(d.name, entries);
        let mut out: Vec<Requirement> = Vec::new();
        let mut i: usize = 0;
        proof {
            assert(entries.skip(0) =~= entries);
            assert(out.deep_view() =~= extra_value(d.name, entries.take(0), before.extras));
            assert(extra_refs(d.name, entries.take(0)) =~= Seq::empty());
        }
        while i < list.len()
            invariant
                i <= list.len(),
                d == self.declared(),
                entries == list.deep_view(),
                refs == extra_refs(d.name, entries),
                inner == outer.push(here),
                outer.len() < MAX_RESOLUTION_DEPTH,
                parents.deep_view() == inner,
                walk_all(d, refs, before.done(), inner) == walk_all(
                    d,
                    extra_refs(d.name, entries.skip(i as int)),
                    resolved.deep_view().done(),
                    inner,
                ),
                is_expansion(d, resolved.deep_view()),
                resolved.deep_view().extras.extends(before.extras),
                resolved.deep_view().groups == before.groups,
                out.deep_view() == extra_value(
                    d.name,
                    entries.take(i as int),
                    resolved.deep_view().extras,
                ),
                all_done(extra_refs(d.name, entries.take(i as int)), resolved.deep_view().done()),
                here == ItemView::Extra(extra@),
                !before.done().has(here),
                d.has(here),
                !outer.contains(here),
                outer == old(parents).deep_view(),
                before == old(resolved).deep_view(),
                entries == d.extras.at(extra@),
            decreases list.len() - i,
        {
            let ghost mid = resolved.deep_view();
            let ghost rest = extra_refs(d.name, entries.skip(i + 1));
            let ghost one = requirement_refs(d.name, entries[i as int]);
            let ghost out_before = out.deep_view();
            proof {
                assert(entries[i as int] == list@[i as int].deep_view());
                assert(entries.skip(i as int)[0] == entries[i as int]);
                assert(entries.skip(i as int).drop_first() =~= entries.skip(i + 1));
                walk_concat(d, one, rest, mid.done(), inner);
            }
            match self.expand_requirement(&list[i], resolved, parents, &mut out) {
                Ok(_) => {},
                Err(kind) => return Err(kind),
            }
            proof {
                let taken = entries.take(i as int);
                let longer = entries.take(i + 1);
                assert(longer.drop_last() =~= taken);
                assert(longer.last() == entries[i as int]);
                extra_value_stable(
                    d.name,
                    taken,
                    mid.extras,
                    resolved.deep_view().extras,
                    mid.groups.keys,
                );
                all_done_grows(extra_refs(d.name, taken), mid.done(), resolved.deep_view().done());
                extra_refs_push(d.name, longer);
                all_done_concat(extra_refs(d.name, taken), one, resolved.deep_view().done());
            }
            i += 1;
        }
        let ghost mid = resolved.deep_view();
        proof {
            assert(entries.skip(i as int) =~= Seq::empty());
            assert(entries.take(i as int) =~= entries);
            assert(inner.contains(here)) by {
                assert(inner[outer.len() as int] == here);
            }
            walk_all_spares_parents(d, refs, before.done(), inner, here);
            expansion_with_extra(d, mid, extra@, out.deep_view());
        }
        resolved.optional_dependencies.insert(extra.to_owned(), out);
        let ghost held = parents@;
        parents.pop();
        proof {
            let after = resolved.deep_view();
            assert forall|k: int| 0 <= k < outer.len() implies parents.deep_view()[k] == outer[k] by {
                assert(inner[k] == held[k].deep_view());
            }
            assert(parents.deep_view() =~= outer);
            assert(after == ResolvedView {
                extras: mid.extras.with(extra@, extra_value(d.name, entries, mid.extras)),
                ..mid
            });
            assert(after.extras.keys[mid.extras.keys.len() as int] == extra@);
            assert(after.extras.extends(before.extras));
        }
        Ok(())
    }

    /// Resolves one group.
    pub fn resolve_dependency_group(
        &self,
        group: &str,
        resolved: &mut ResolvedDependencies,
        parents: &mut Vec<Item>,
    ) -> (r: Result<(), ResolveErrorKind>)
        requires
            old(resolved).deep_view().groups.has(group@) || is_expansion(
                self.declared(),
                old(resolved).deep_view(),
            ),
        ensures
            is_expansion(self.declared(), old(resolved).deep_view()) ==> steps_to(
                self.declared(),
                walk(
                    self.declared(),
                    ItemView::Group(group@),
                    old(resolved).deep_view().done(),
                    old(parents).deep_view(),
                ),
                old(resolved).deep_view(),
                final(resolved).deep_view(),
                r,
            ),
            r is Ok ==> final(resolved).deep_view().groups.has(group@),
            r is Ok ==> final(parents).deep_view() == old(parents).deep_view(),
            old(resolved).deep_view().groups.has(group@) ==> r is Ok && final(resolved).deep_view()
                == old(resolved).deep_view() && final(parents).deep_view() == old(
                parents,
            ).deep_view(),
        decreases room(old(parents).deep_view()), 0int,
    {
        let ghost d = self.declared();
        let ghost before = resolved.deep_view();
        let ghost outer = parents.deep_view();
        let ghost here = ItemView::Group(group@);
        if let Some(_) = resolved.dependency_groups.get(group) {
            return Ok(());
        }
        let list = match self.groups.get(group) {
            Some(list) => list,
            None => {
                if parents.len() == 0 {
                    return Err(ResolveErrorKind::MissingParent(Item::Group(group.to_owned())));
                }
                let included_by = parents[parents.len() - 1].duplicate();
                assert(outer.last() == included_by.deep_view());
                return Err(
                    ResolveErrorKind::DependencyGroupNotFound {
                        name: group.to_owned(),
                        included_by,
                    },
                );
            },
        };
        let item = Item::Group(group.to_owned());
        if holds_item(parents, &item) {
            return Err(ResolveErrorKind::DependencyGroupCycle(Cycle(parents.duplicate())));
        }
        if parents.len() >= MAX_RESOLUTION_DEPTH {
            return Err(
                ResolveErrorKind::MaxDepthExceeded {
                    limit: MAX_RESOLUTION_DEPTH,
                    chain: Chain(parents.duplicate()),
                },
            );
        }
        parents.push(item);
        let ghost inner = outer.push(here);
        assert(parents.deep_view() =~= inner);
        let ghost entries = list.deep_view();
        let ghost refs = group_refs(d.name, entries);
        let mut out: Vec<Dependency> = Vec::new();
        let mut i: usize = 0;
        proof {
            assert(entries.skip(0) =~= entries);
            assert(out.deep_view() =~= group_value(
                d.name,
                entries.take(0),
                before.extras,
                before.groups,
            ));
            assert(group_refs(d.name, entries.take(0)) =~= Seq::empty());
        }
        while i < list.len()
            invariant
                i <= list.len(),
                d == self.declared(),
                entries == list.deep_view(),
                refs == group_refs(d.name, entries),
                inner == outer.push(here),
                outer.len() < MAX_RESOLUTION_DEPTH,
                parents.deep_view() == inner,
                walk_all(d, refs, before.done(), inner) == walk_all(
                    d,
                    group_refs(d.name, entries.skip(i as int)),
                    resolved.deep_view().done(),
                    inner,
                ),
                is_expansion(d, resolved.deep_view()),
                resolved.deep_view().extras.extends(before.extras),
                resolved.deep_view().groups.extends(before.groups),
                out.deep_view() == group_value(
                    d.name,
                    entries.take(i as int),
                    resolved.deep_view().extras,
                    resolved.deep_view().groups,
                ),
                all_done(group_refs(d.name, entries.take(i as int)), resolved.deep_view().done()),
                here == ItemView::Group(group@),
                !before.done().has(here),
                d.has(here),
                !outer.contains(here),
                outer == old(parents).deep_view(),
                before == old(resolved).deep_view(),
                entries == d.groups.at(group@),
            decreases list.len() - i,
        {
            let ghost mid = resolved.deep_view();
            let ghost rest = group_refs(d.name, entries.skip(i + 1));
            let ghost one = entry_refs(d.name, entries[i as int]);
            let ghost out_before = out.deep_view();
            proof {
                assert(entries[i as int] == list@[i as int].deep_view());
                assert(entries.skip(i as int)[0] == entries[i as int]);
                assert(entries.skip(i as int).drop_first() =~= entries.skip(i + 1));
                walk_concat(d, one, rest, mid.done(), inner);
            }
            match self.expand_entry(&list[i], resolved, parents, &mut out) {
                Ok(_) => {},
                Err(kind) => return Err(kind),
            }
            proof {
                let taken = entries.take(i as int);
                let longer = entries.take(i + 1);
                assert(longer.drop_last() =~= taken);
                assert(longer.last() == entries[i as int]);
                group_value_stable(d.name, taken, mid, resolved.deep_view());
                all_done_grows(group_refs(d.name, taken), mid.done(), resolved.deep_view().done());
                group_refs_push(d.name, longer);
                all_done_concat(group_refs(d.name, taken), one, resolved.deep_view().done());
            }
            i += 1;
        }
        let ghost mid = resolved.deep_view();
        proof {
            assert(entries.skip(i as int) =~= Seq::empty());
            assert(entries.take(i as int) =~= entries);
            assert(inner.contains(here)) by {
                assert(inner[outer.len() as int] == here);
            }
            walk_all_spares_parents(d, refs, before.done(), inner, here);
            expansion_with_group(d, mid, group@, out.deep_view());
        }
        resolved.dependency_groups.insert(group.to_owned(), out);
        let ghost held = parents@;
        parents.pop();
        proof {
            let after = resolved.deep_view();
            assert forall|k: int| 0 <= k < outer.len() implies parents.deep_view()[k] == outer[k] by {
                assert(inner[k] == held[k].deep_view());
            }
            assert(parents.deep_view() =~= outer);
            assert(after == ResolvedView {
                groups: mid.groups.with(group@, group_value(d.name, entries, mid.extras, mid.groups)),
                ..mid
            });
            assert(after.groups.keys[mid.groups.keys.len() as int] == group@);
            assert(after.groups.extends(before.groups));
        }
        Ok(())
    }

    /// Resolves what a group entry refers to, and appends what it stands
    /// for.
    fn expand_entry(
        &self,
        entry: &DependencyGroupSpecifier,
        resolved: &mut ResolvedDependencies,
        parents: &mut Vec<Item>,
        out: &mut Vec<Dependency>,
    ) -> (r: Result<(), ResolveErrorKind>)
        requires
            is_expansion(self.declared(), old(resolved).deep_view()),
        ensures
            steps_to(
                self.declared(),
                walk_all(
                    self.declared(),
                    entry_refs(self.declared().name, entry.deep_view()),
                    old(resolved).deep_view().done(),
                    old(parents).deep_view(),
                ),
                old(resolved).deep_view(),
                final(resolved).deep_view(),
                r,
            ),
            r is Ok ==> all_done(
                entry_refs(self.declared().name, entry.deep_view()),
                final(resolved).deep_view().done(),
            ),
            r is Ok ==> final(out).deep_view() == old(out).deep_view() + entry_value(
                self.declared().name,
                entry.deep_view(),
                final(resolved).deep_view().extras,
                final(resolved).deep_view().groups,
            ),
            r is Ok ==> final(parents).deep_view() == old(parents).deep_view(),
        decreases room(old(parents).deep_view()), 2int,
    {
        let ghost d = self.declared();
        let ghost before = resolved.deep_view();
        let ghost outer = parents.deep_view();
        let ghost out_before = out.deep_view();
        match entry {
            DependencyGroupSpecifier::Dependency(Dependency::Pep508(requirement)) => {
                let mut list: Vec<Requirement> = Vec::new();
                assert(list.deep_view() =~= Seq::empty());
                match self.expand_requirement(requirement, resolved, parents, &mut list) {
                    Ok(_) => {},
                    Err(kind) => return Err(kind),
                }
                let ghost value = requirement_value(
                    d.name,
                    requirement.deep_view(),
                    resolved.deep_view().extras,
                );
                assert(list.deep_view() =~= value);
                push_requirements(out, list);
                Ok(())
            },
            DependencyGroupSpecifier::Dependency(Dependency::Matchspec(spec)) => {
                let one = Dependency::Matchspec(Box::new((**spec).duplicate()));
                out.push(one);
                assert(out.deep_view() =~= out_before + seq![one.deep_view()]);
                Ok(())
            },
            DependencyGroupSpecifier::IncludeGroup(group) => {
                let ghost refs = entry_refs(d.name, entry.deep_view());
                assert(refs[0] == ItemView::Group(group@));
                match self.resolve_dependency_group(group.as_str(), resolved, parents) {
                    Ok(_) => {},
                    Err(kind) => return Err(kind),
                }
                assert(walk_all(
                    d,
                    refs.drop_first(),
                    resolved.deep_view().done(),
                    outer,
                ) == Ok::<Done, FailureView>(resolved.deep_view().done()));
                if let Some(list) = resolved.dependency_groups.get(group.as_str()) {
                    append_all(out, list);
                    assert(views(list@) =~= list.deep_view());
                }
                Ok(())
            },
        }
    }

    /// Resolves what a dependency specifier refers to, and appends what it
    /// stands for.
    fn expand_requirement(
        &self,
        requirement: &Requirement,
        resolved: &mut ResolvedDependencies,
        parents: &mut Vec<Item>,
        out: &mut Vec<Requirement>,
    ) -> (r: Result<(), ResolveErrorKind>)
        requires
            is_expansion(self.declared(), old(resolved).deep_view()),
        ensures
            steps_to(
                self.declared(),
                walk_all(
                    self.declared(),
                    requirement_refs(self.declared().name, requirement.deep_view()),
                    old(resolved).deep_view().done(),
                    old(parents).deep_view(),
                ),
                old(resolved).deep_view(),
                final(resolved).deep_view(),
                r,
            ),
            r is Ok ==> final(resolved).deep_view().groups == old(resolved).deep_view().groups,
            r is Ok ==> all_done(
                requirement_refs(self.declared().name, requirement.deep_view()),
                final(resolved).deep_view().done(),
            ),
            r is Ok ==> final(out).deep_view() == old(out).deep_view() + requirement_value(
                self.declared().name,
                requirement.deep_view(),
                final(resolved).deep_view().extras,
            ),
            r is Ok ==> final(parents).deep_view() == old(parents).deep_view(),
        decreases room(old(parents).deep_view()), 1int,
    {
        let ghost d = self.declared();
        let ghost before = resolved.deep_view();
        let ghost outer = parents.deep_view();
        let ghost out_before = out.deep_view();
        let ghost view = requirement.deep_view();
        if !self.is_self(requirement) {
            out.push(requirement.duplicate());
            assert(out.deep_view() =~= out_before + seq![view]);
            return Ok(());
        }
        let ghost names = view.extras;
        let ghost refs = extra_items(names);
        let mut j: usize = 0;
        proof {
            assert(refs.skip(0) =~= refs);
            assert(out.deep_view() =~= out_before + lists_of(names.take(0), before.extras));
        }
        while j < requirement.extras.len()
            invariant
                j <= requirement.extras.len(),
                d == self.declared(),
                names == requirement.extras.deep_view(),
                names == view.extras,
                view == requirement.deep_view(),
                d.name == Some(view.name),
                refs == extra_items(names),
                parents.deep_view() == outer,
                outer == old(parents).deep_view(),
                before == old(resolved).deep_view(),
                walk_all(d, refs, before.done(), outer) == walk_all(
                    d,
                    refs.skip(j as int),
                    resolved.deep_view().done(),
                    outer,
                ),
                is_expansion(d, resolved.deep_view()),
                resolved.deep_view().extras.extends(before.extras),
                resolved.deep_view().groups == before.groups,
                forall|k: int| 0 <= k < j ==> resolved.deep_view().extras.has(#[trigger] names[k]),
                out.deep_view() == out_before + lists_of(
                    names.take(j as int),
                    resolved.deep_view().extras,
                ),
                out_before == old(out).deep_view(),
            decreases requirement.extras.len() - j,
        {
            let ghost mid = resolved.deep_view();
            proof {
                assert(refs.skip(j as int)[0] == ItemView::Extra(names[j as int]));
                assert(names[j as int] == requirement.extras@[j as int]@);
                assert(refs.skip(j as int).drop_first() =~= refs.skip(j + 1));
            }
            let extra = requirement.extras[j].as_str();
            match self.resolve_optional_dependency(extra, resolved, parents) {
                Ok(_) => {},
                Err(kind) => return Err(kind),
            }
            proof {
                let after = resolved.deep_view();
                assert forall|k: int| 0 <= k < j + 1 implies after.extras.has(
                    #[trigger] names[k],
                ) by {
                    if k < j {
                        extension_keeps(mid.extras, after.extras, names[k]);
                    }
                }
                let taken = names.take(j as int);
                assert forall|k: int| 0 <= k < taken.len() implies mid.extras.has(
                    #[trigger] taken[k],
                ) by {
                    assert(taken[k] == names[k]);
                }
                lists_of_stable(taken, mid.extras, after.extras);
                assert(names.take(j + 1).drop_last() =~= taken);
                assert(names.take(j + 1).last() == names[j as int]);
            }
            if let Some(list) = resolved.optional_dependencies.get(extra) {
                append_all(out, list);
                assert(views(list@) =~= list.deep_view());
            }
            j += 1;
            assert(out.deep_view() =~= out_before + lists_of(
                names.take(j as int),
                resolved.deep_view().extras,
            ));
        }
        proof {
            assert(refs.skip(j as int) =~= Seq::empty());
            assert(names.take(j as int) =~= names);
            assert forall|k: int| 0 <= k < refs.len() implies resolved.deep_view().done().has(
                #[trigger] refs[k],
            ) by {
                assert(refs[k] == ItemView::Extra(names[k]));
            }
        }
        Ok(())
    }
}

/// Appends dependency specifiers as dependencies.
pub(crate) fn push_requirements(out: &mut Vec<Dependency>, list: Vec<Requirement>)
    ensures
        final(out).deep_view() == old(out).deep_view() + as_dependencies(list.deep_view()),
{
    let ghost before = out.deep_view();
    let ghost all = list.deep_view();
    let mut i: usize = 0;
    assert(out.deep_view() =~= before + as_dependencies(all.take(0)));
    while i < list.len()
        invariant
            i <= list.len(),
            all == list.deep_view(),
            out.deep_view() == before + as_dependencies(all.take(i as int)),
        decreases list.len() - i,
    {
        let one = Dependency::Pep508(list[i].duplicate());
        let ghost done = out.deep_view();
        assert(one.deep_view() == DependencyView::Pep508(all[i as int]));
        out.push(one);
        i += 1;
        assert(out.deep_view() =~= done.push(one.deep_view()));
        assert(out.deep_view() =~= before + as_dependencies(all.take(i as int)));
    }
    assert(all.take(i as int) =~= all);
}

/// The declarations given to [`resolve`].
pub open spec fn declared_by(
    project_name: Option<&str>,
    optional_dependencies: Option<&Table<Vec<Requirement>>>,
    dependency_groups: Option<&Table<Vec<DependencyGroupSpecifier>>>,
) -> Declared {
    Declared {
        name: text_view(project_name),
        extras: match optional_dependencies {
            Some(table) => table.deep_view(),
            None => TableView::empty(),
        },
        groups: match dependency_groups {
            Some(table) => table.deep_view(),
            None => TableView::empty(),
        },
    }
}

/// Resolves optional dependencies and dependency groups into flat lists.
///
/// A specifier that names the project itself stands for the lists of the
/// extras that it asks for, and a reference to a group for that group's
/// list. Extras are resolved first, then groups, each in the order of
/// declaration; what a reference needs is resolved before what refers to
/// it, once. The first reference to a name that does not exist, that leads
/// back to where it came from, or that is too deep, is the error.
pub fn resolve(
    project_name: Option<&str>,
    optional_dependencies: Option<&Table<Vec<Requirement>>>,
    dependency_groups: Option<&Table<Vec<DependencyGroupSpecifier>>>,
) -> (r: Result<ResolvedDependencies, ResolveError>)
    ensures
        match r {
            Ok(resolved) => {
                let d = declared_by(project_name, optional_dependencies, dependency_groups);
                &&& resolution(d) == Ok::<Done, (FailureView, Section)>(
                    resolved.deep_view().done(),
                )
                &&& is_expansion(d, resolved.deep_view())
            },
            Err(error) => resolution(
                declared_by(project_name, optional_dependencies, dependency_groups),
            ) == Err::<Done, (FailureView, Section)>((error.kind.deep_view(), error.section)),
        },
{
    let no_extras = Table::new();
    let no_groups = Table::new();
    let extras = match optional_dependencies {
        Some(table) => table,
        None => &no_extras,
    };
    let groups = match dependency_groups {
        Some(table) => table,
        None => &no_groups,
    };
    let resolver = Resolver { name: project_name, extras, groups };
    let ghost d = declared_by(project_name, optional_dependencies, dependency_groups);
    proof {
        assert(no_extras.deep_view().items =~= Seq::empty());
        assert(no_groups.deep_view().items =~= Seq::empty());
        assert(resolver.declared() == d);
    }
    let mut resolved = ResolvedDependencies {
        optional_dependencies: Table::new(),
        dependency_groups: Table::new(),
    };
    let ghost start = Done { extras: Seq::empty(), groups: Seq::empty() };
    let ghost extra_list = extra_items(d.extras.keys);
    let n: usize = extras.len();
    let mut i: usize = 0;
    assert(extra_list.skip(0) =~= extra_list);
    while i < n
        invariant
            i <= n,
            n == d.extras.keys.len(),
            d == resolver.declared(),
            d == declared_by(project_name, optional_dependencies, dependency_groups),
            d.extras == extras.deep_view(),
            extra_list == extra_items(d.extras.keys),
            is_expansion(d, resolved.deep_view()),
            start == (Done { extras: Seq::empty(), groups: Seq::empty() }),
            walk_all(d, extra_list, start, Seq::empty()) == walk_all(
                d,
                extra_list.skip(i as int),
                resolved.deep_view().done(),
                Seq::empty(),
            ),
        decreases n - i,
    {
        let mut parents: Vec<Item> = Vec::new();
        proof {
            assert(parents.deep_view() =~= Seq::empty());
            assert(extra_list.skip(i as int)[0] == ItemView::Extra(d.extras.keys[i as int]));
            assert(extra_list.skip(i as int).drop_first() =~= extra_list.skip(i + 1));
        }
        match resolver.resolve_optional_dependency(extras.key(i), &mut resolved, &mut parents) {
            Ok(_) => {},
            Err(kind) => return Err(
                ResolveError { kind, section: Section::OptionalDependencies },
            ),
        }
        i += 1;
    }
    let ghost group_list = group_items(d.groups.keys);
    let ghost first = resolved.deep_view().done();
    let m: usize = groups.len();
    let mut j: usize = 0;
    proof {
        assert(extra_list.skip(i as int) =~= Seq::empty());
        assert(group_list.skip(0) =~= group_list);
    }
    while j < m
        invariant
            j <= m,
            m == d.groups.keys.len(),
            d == resolver.declared(),
            d == declared_by(project_name, optional_dependencies, dependency_groups),
            d.groups == groups.deep_view(),
            group_list == group_items(d.groups.keys),
            is_expansion(d, resolved.deep_view()),
            start == (Done { extras: Seq::empty(), groups: Seq::empty() }),
            walk_all(d, extra_items(d.extras.keys), start, Seq::empty()) == Ok::<Done, FailureView>(
                first,
            ),
            walk_all(d, group_list, first, Seq::empty()) == walk_all(
                d,
                group_list.skip(j as int),
                resolved.deep_view().done(),
                Seq::empty(),
            ),
        decreases m - j,
    {
        let mut parents: Vec<Item> = Vec::new();
        proof {
            assert(parents.deep_view() =~= Seq::empty());
            assert(group_list.skip(j as int)[0] == ItemView::Group(d.groups.keys[j as int]));
            assert(group_list.skip(j as int).drop_first() =~= group_list.skip(j + 1));
        }
        match resolver.resolve_dependency_group(groups.key(j), &mut resolved, &mut parents) {
            Ok(_) => {},
            Err(kind) => return Err(ResolveError { kind, section: Section::DependencyGroups }),
        }
        j += 1;
    }
    assert(group_list.skip(j as int) =~= Seq::empty());
    Ok(resolved)
}

/// Walking an item resolves it and forgets nothing.
proof fn walk_resolves(d: Declared, item: ItemView, done: Done, parents: Seq<ItemView>, q: ItemView)
    requires
        walk(d, item, done, parents) is Ok,
    ensures
        walk(d, item, done, parents)->Ok_0.has(item),
        done.has(q) ==> walk(d, item, done, parents)->Ok_0.has(q),
    decreases room(parents), 0int,
{
    if !done.has(item) {
        let inner = parents.push(item);
        walk_all_resolves(d, d.refs(item), done, inner, q);
        let after = walk_all(d, d.refs(item), done, inner)->Ok_0;
        done_with(after, item, item);
        done_with(after, item, q);
    }
}

/// Walking items resolves each and forgets nothing.
proof fn walk_all_resolves(
    d: Declared,
    items: Seq<ItemView>,
    done: Done,
    parents: Seq<ItemView>,
    q: ItemView,
)
    requires
        walk_all(d, items, done, parents) is Ok,
    ensures
        done.has(q) || items.contains(q) ==> walk_all(d, items, done, parents)->Ok_0.has(q),
    decreases room(parents), items.len() + 1,
{
    if items.len() > 0 {
        walk_resolves(d, items[0], done, parents, q);
        let after = walk(d, items[0], done, parents)->Ok_0;
        let rest = items.drop_first();
        walk_all_resolves(d, rest, after, parents, q);
        if items.contains(q) {
            let i = items.index_of(q);
            if i > 0 {
                assert(rest[i - 1] == q);
            }
        }
    }
}

/// An extra or group that has been resolved is left as it is: coming back to
/// it changes nothing and is no error, whatever led there and whatever is
/// declared.
pub proof fn resolved_items_are_kept(
    d: Declared,
    item: ItemView,
    before: ResolvedView,
    after: ResolvedView,
    parents: Seq<ItemView>,
    r: Result<(), ResolveErrorKind>,
)
    requires
        before.extras.wf(),
        before.groups.wf(),
        before.done().has(item),
        steps_to(d, walk(d, item, before.done(), parents), before, after, r),
    ensures
        walk(d, item, before.done(), parents) == Ok::<Done, FailureView>(before.done()),
        r is Ok,
        after == before,
{
    assert(after.extras.items =~= before.extras.items);
    assert(after.groups.items =~= before.groups.items);
}

/// A resolution that succeeds resolves every declared extra and group.
pub proof fn resolution_covers_everything(d: Declared)
    requires
        resolution(d) is Ok,
    ensures
        forall|name: Seq<char>|
            d.extras.has(name) ==> #[trigger] resolution(d)->Ok_0.extras.contains(name),
        forall|name: Seq<char>|
            d.groups.has(name) ==> #[trigger] resolution(d)->Ok_0.groups.contains(name),
{
    let start = Done { extras: Seq::empty(), groups: Seq::empty() };
    let extra_list = extra_items(d.extras.keys);
    let group_list = group_items(d.groups.keys);
    let first = walk_all(d, extra_list, start, Seq::empty())->Ok_0;
    let all = resolution(d)->Ok_0;
    assert forall|name: Seq<char>| d.extras.has(name) implies #[trigger] all.extras.contains(
        name,
    ) by {
        let item = ItemView::Extra(name);
        let i = d.extras.keys.index_of(name);
        assert(extra_list[i] == item);
        walk_all_resolves(d, extra_list, start, Seq::empty(), item);
        walk_all_resolves(d, group_list, first, Seq::empty(), item);
        assert(all.has(item));
    }
    assert forall|name: Seq<char>| d.groups.has(name) implies #[trigger] all.groups.contains(
        name,
    ) by {
        let item = ItemView::Group(name);
        let i = d.groups.keys.index_of(name);
        assert(group_list[i] == item);
        walk_all_resolves(d, group_list, first, Seq::empty(), item);
        assert(all.has(item));
    }
}

/// Whether a list holds no specifier that names the project itself.
pub open spec fn is_self_free(name: Option<Seq<char>>, list: Seq<RequirementView>) -> bool {
    forall|i: int| 0 <= i < list.len() ==> name != Some((#[trigger] list[i]).name)
}

/// Whether a list of dependencies holds no specifier that names the project
/// itself.
pub open spec fn is_self_free_group(name: Option<Seq<char>>, list: Seq<DependencyView>) -> bool {
    forall|i: int|
        0 <= i < list.len() ==> match #[trigger] list[i] {
            DependencyView::Pep508(r) => name != Some(r.name),
            DependencyView::Matchspec(_) => true,
        }
}

proof fn lists_self_free(
    name: Option<Seq<char>>,
    names: Seq<Seq<char>>,
    extras: TableView<Seq<RequirementView>>,
    n: int,
)
    requires
        extras.wf(),
        0 <= n <= extras.keys.len(),
        forall|i: int| 0 <= i < n ==> is_self_free(name, #[trigger] extras.items[i]),
        forall|i: int| 0 <= i < names.len() ==> extras.keys.take(n).contains(#[trigger] names[i]),
    ensures
        is_self_free(name, lists_of(names, extras)),
    decreases names.len(),
{
    if names.len() > 0 {
        let rest = names.drop_last();
        assert forall|i: int| 0 <= i < rest.len() implies extras.keys.take(n).contains(
            #[trigger] rest[i],
        ) by {
            assert(rest[i] == names[i]);
        }
        lists_self_free(name, rest, extras, n);
        let last = names.last();
        assert(last == names[names.len() - 1]);
        let k = extras.keys.take(n).index_of(last);
        assert(extras.keys[k] == last);
        assert(extras.keys.index_of(last) == k);
        assert(is_self_free(name, extras.items[k]));
    }
}

proof fn requirement_value_self_free(
    name: Option<Seq<char>>,
    r: RequirementView,
    extras: TableView<Seq<RequirementView>>,
    n: int,
    groups: Seq<Seq<char>>,
)
    requires
        extras.wf(),
        0 <= n <= extras.keys.len(),
        forall|i: int| 0 <= i < n ==> is_self_free(name, #[trigger] extras.items[i]),
        all_done(requirement_refs(name, r), Done { extras: extras.keys.take(n), groups }),
    ensures
        is_self_free(name, requirement_value(name, r, extras)),
{
    if name == Some(r.name) {
        let items = extra_items(r.extras);
        assert forall|i: int| 0 <= i < r.extras.len() implies extras.keys.take(n).contains(
            #[trigger] r.extras[i],
        ) by {
            assert(items[i] == ItemView::Extra(r.extras[i]));
        }
        lists_self_free(name, r.extras, extras, n);
    }
}

proof fn extra_value_self_free(
    name: Option<Seq<char>>,
    list: Seq<RequirementView>,
    extras: TableView<Seq<RequirementView>>,
    n: int,
)
    requires
        extras.wf(),
        0 <= n <= extras.keys.len(),
        forall|i: int| 0 <= i < n ==> is_self_free(name, #[trigger] extras.items[i]),
        all_done(
            extra_refs(name, list),
            Done { extras: extras.keys.take(n), groups: Seq::empty() },
        ),
    ensures
        is_self_free(name, extra_value(name, list, extras)),
    decreases list.len(),
{
    if list.len() > 0 {
        let done = Done { extras: extras.keys.take(n), groups: Seq::empty() };
        extra_refs_push(name, list);
        all_done_concat(
            extra_refs(name, list.drop_last()),
            requirement_refs(name, list.last()),
            done,
        );
        extra_value_self_free(name, list.drop_last(), extras, n);
        requirement_value_self_free(name, list.last(), extras, n, Seq::empty());
    }
}

proof fn group_value_self_free(
    name: Option<Seq<char>>,
    list: Seq<GroupEntryView>,
    r: ResolvedView,
    n: int,
)
    requires
        r.extras.wf(),
        r.groups.wf(),
        0 <= n <= r.groups.keys.len(),
        forall|i: int|
            0 <= i < r.extras.keys.len() ==> is_self_free(name, #[trigger] r.extras.items[i]),
        forall|i: int| 0 <= i < n ==> is_self_free_group(name, #[trigger] r.groups.items[i]),
        all_done(
            group_refs(name, list),
            Done { extras: r.extras.keys, groups: r.groups.keys.take(n) },
        ),
    ensures
        is_self_free_group(name, group_value(name, list, r.extras, r.groups)),
    decreases list.len(),
{
    if list.len() > 0 {
        let done = Done { extras: r.extras.keys, groups: r.groups.keys.take(n) };
        group_refs_push(name, list);
        all_done_concat(
            group_refs(name, list.drop_last()),
            entry_refs(name, list.last()),
            done,
        );
        group_value_self_free(name, list.drop_last(), r, n);
        match list.last() {
            GroupEntryView::Dependency(DependencyView::Pep508(q)) => {
                let whole = r.extras.keys.len() as int;
                assert(r.extras.keys.take(whole) =~= r.extras.keys);
                requirement_value_self_free(name, q, r.extras, whole, r.groups.keys.take(n));
                let value = requirement_value(name, q, r.extras);
                assert forall|i: int| 0 <= i < value.len() implies name != Some(
                    (#[trigger] as_dependencies(value)[i])->Pep508_0.name,
                ) by {
                    assert(as_dependencies(value)[i] == DependencyView::Pep508(value[i]));
                }
                assert(is_self_free_group(name, as_dependencies(value)));
            },
            GroupEntryView::Dependency(DependencyView::Matchspec(_)) => {},
            GroupEntryView::IncludeGroup(group) => {
                assert(entry_refs(name, list.last())[0] == ItemView::Group(group));
                assert(r.groups.keys.take(n).contains(group));
                let k = r.groups.keys.take(n).index_of(group);
                assert(r.groups.keys[k] == group);
                assert(r.groups.keys.index_of(group) == k);
                assert(is_self_free_group(name, r.groups.items[k]));
            },
        }
    }
}

proof fn extras_self_free(d: Declared, r: ResolvedView, n: int)
    requires
        is_expansion(d, r),
        0 <= n <= r.extras.keys.len(),
    ensures
        forall|i: int| 0 <= i < n ==> is_self_free(d.name, #[trigger] r.extras.items[i]),
    decreases n,
{
    if n > 0 {
        extras_self_free(d, r, n - 1);
        let name = r.extras.keys[n - 1];
        extra_value_self_free(d.name, d.extras.at(name), r.extras, n - 1);
    }
}

proof fn groups_self_free(d: Declared, r: ResolvedView, n: int)
    requires
        is_expansion(d, r),
        0 <= n <= r.groups.keys.len(),
    ensures
        forall|i: int| 0 <= i < n ==> is_self_free_group(d.name, #[trigger] r.groups.items[i]),
    decreases n,
{
    if n > 0 {
        groups_self_free(d, r, n - 1);
        extras_self_free(d, r, r.extras.keys.len() as int);
        let name = r.groups.keys[n - 1];
        group_value_self_free(d.name, d.groups.at(name), r, n - 1);
    }
}

/// No resolved list holds a specifier that names the project itself.
pub proof fn expansion_has_no_self_references(d: Declared, r: ResolvedView)
    requires
        is_expansion(d, r),
    ensures
        forall|i: int|
            0 <= i < r.extras.items.len() ==> is_self_free(d.name, #[trigger] r.extras.items[i]),
        forall|i: int|
            0 <= i < r.groups.items.len() ==> is_self_free_group(
                d.name,
                #[trigger] r.groups.items[i],
            ),
{
    extras_self_free(d, r, r.extras.keys.len() as int);
    groups_self_free(d, r, r.groups.keys.len() as int);
}

/// What has been resolved determines the resolved lists.
pub proof fn expansion_is_unique(d: Declared, a: ResolvedView, b: ResolvedView)
    requires
        is_expansion(d, a),
        is_expansion(d, b),
        a.done() == b.done(),
    ensures
        a == b,
{
    extras_unique(d, a, b, a.extras.keys.len() as int);
    assert(a.extras.items =~= b.extras.items);
    groups_unique(d, a, b, a.groups.keys.len() as int);
    assert(a.groups.items =~= b.groups.items);
}

/// The first `n` entries of a table.
spec fn front<V>(t: TableView<V>, n: int) -> TableView<V> {
    TableView { keys: t.keys.take(n), items: t.items.take(n) }
}

proof fn front_wf<V>(t: TableView<V>, n: int)
    requires
        t.wf(),
        0 <= n <= t.keys.len(),
    ensures
        front(t, n).wf(),
        t.extends(front(t, n)),
{
}

proof fn extras_unique(d: Declared, a: ResolvedView, b: ResolvedView, n: int)
    requires
        is_expansion(d, a),
        is_expansion(d, b),
        a.done() == b.done(),
        0 <= n <= a.extras.keys.len(),
    ensures
        forall|i: int| 0 <= i < n ==> #[trigger] a.extras.items[i] == b.extras.items[i],
    decreases n,
{
    if n > 0 {
        extras_unique(d, a, b, n - 1);
        let name = a.extras.keys[n - 1];
        assert(name == b.extras.keys[n - 1]);
        let fa = front(a.extras, n - 1);
        let fb = front(b.extras, n - 1);
        assert(fa.items =~= fb.items);
        front_wf(a.extras, n - 1);
        front_wf(b.extras, n - 1);
        extra_value_stable(d.name, d.extras.at(name), fa, a.extras, Seq::empty());
        extra_value_stable(d.name, d.extras.at(name), fb, b.extras, Seq::empty());
    }
}

proof fn groups_unique(d: Declared, a: ResolvedView, b: ResolvedView, n: int)
    requires
        is_expansion(d, a),
        is_expansion(d, b),
        a.done() == b.done(),
        a.extras == b.extras,
        0 <= n <= a.groups.keys.len(),
    ensures
        forall|i: int| 0 <= i < n ==> #[trigger] a.groups.items[i] == b.groups.items[i],
    decreases n,
{
    if n > 0 {
        groups_unique(d, a, b, n - 1);
        let name = a.groups.keys[n - 1];
        assert(name == b.groups.keys[n - 1]);
        let fa = ResolvedView { groups: front(a.groups, n - 1), ..a };
        let fb = ResolvedView { groups: front(b.groups, n - 1), ..b };
        assert(fa.groups.items =~= fb.groups.items);
        front_wf(a.groups, n - 1);
        front_wf(b.groups, n - 1);
        group_value_stable(d.name, d.groups.at(name), fa, a);
        group_value_stable(d.name, d.groups.at(name), fb, b);
    }
}

proof fn extra_value_kept(
    name: Option<Seq<char>>,
    list: Seq<RequirementView>,
    extras: TableView<Seq<RequirementView>>,
)
    requires
        is_self_free(name, list),
    ensures
        extra_value(name, list, extras) == list,
    decreases list.len(),
{
    if list.len() == 0 {
        assert(extra_value(name, list, extras) =~= list);
    } else {
        let rest = list.drop_last();
        assert forall|i: int| 0 <= i < rest.len() implies name != Some((#[trigger] rest[i]).name) by {
            assert(rest[i] == list[i]);
        }
        extra_value_kept(name, rest, extras);
        assert(name != Some(list[list.len() - 1].name));
        assert(rest + seq![list.last()] =~= list);
    }
}

/// Whether a group holds its dependencies itself, none of which names the
/// project.
pub open spec fn is_plain_group(name: Option<Seq<char>>, list: Seq<GroupEntryView>) -> bool {
    forall|i: int|
        0 <= i < list.len() ==> match #[trigger] list[i] {
            GroupEntryView::Dependency(DependencyView::Pep508(r)) => name != Some(r.name),
            GroupEntryView::Dependency(DependencyView::Matchspec(_)) => true,
            GroupEntryView::IncludeGroup(_) => false,
        }
}

/// The dependencies of a group that holds them itself.
pub open spec fn entries_of(list: Seq<GroupEntryView>) -> Seq<DependencyView> {
    list.map_values(|e: GroupEntryView| e->Dependency_0)
}

proof fn group_value_kept(
    name: Option<Seq<char>>,
    list: Seq<GroupEntryView>,
    r: ResolvedView,
)
    requires
        is_plain_group(name, list),
    ensures
        group_value(name, list, r.extras, r.groups) == entries_of(list),
    decreases list.len(),
{
    if list.len() == 0 {
        assert(group_value(name, list, r.extras, r.groups) =~= entries_of(list));
    } else {
        let rest = list.drop_last();
        let last = list[list.len() - 1];
        assert forall|i: int| 0 <= i < rest.len() implies match #[trigger] rest[i] {
            GroupEntryView::Dependency(DependencyView::Pep508(r)) => name != Some(r.name),
            GroupEntryView::Dependency(DependencyView::Matchspec(_)) => true,
            GroupEntryView::IncludeGroup(_) => false,
        } by {
            assert(rest[i] == list[i]);
        }
        group_value_kept(name, rest, r);
        assert(entry_value(name, last, r.extras, r.groups) =~= seq![last->Dependency_0]);
        assert(entries_of(rest) + seq![last->Dependency_0] =~= entries_of(list));
    }
}

/// A list without references is resolved to itself.
pub proof fn plain_lists_are_kept(d: Declared, r: ResolvedView)
    requires
        is_expansion(d, r),
    ensures
        forall|i: int|
            0 <= i < r.extras.keys.len() && is_self_free(d.name, d.extras.at(r.extras.keys[i]))
                ==> #[trigger] r.extras.items[i] == d.extras.at(r.extras.keys[i]),
        forall|i: int|
            0 <= i < r.groups.keys.len() && is_plain_group(d.name, d.groups.at(r.groups.keys[i]))
                ==> #[trigger] r.groups.items[i] == entries_of(d.groups.at(r.groups.keys[i])),
{
    assert forall|i: int|
        0 <= i < r.extras.keys.len() && is_self_free(d.name, d.extras.at(r.extras.keys[i])) implies
        #[trigger] r.extras.items[i] == d.extras.at(r.extras.keys[i]) by {
        extra_value_kept(d.name, d.extras.at(r.extras.keys[i]), r.extras);
    }
    assert forall|i: int|
        0 <= i < r.groups.keys.len() && is_plain_group(d.name, d.groups.at(r.groups.keys[i]))
            implies #[trigger] r.groups.items[i] == entries_of(d.groups.at(r.groups.keys[i])) by {
        group_value_kept(d.name, d.groups.at(r.groups.keys[i]), r);
    }
}

/// The specifiers of an extra are replaced one by one, in order: one that
/// names another project stands for itself, and one that names the project
/// itself for the lists of its extras, in the order in which it names them.
pub proof fn extra_is_expanded_entry_by_entry(
    name: Option<Seq<char>>,
    list: Seq<RequirementView>,
    one: RequirementView,
    extras: TableView<Seq<RequirementView>>,
    more: Seq<char>,
)
    ensures
        extra_value(name, Seq::empty(), extras).len() == 0,
        name != Some(one.name) ==> extra_value(name, list.push(one), extras) == extra_value(
            name,
            list,
            extras,
        ).push(one),
        name == Some(one.name) && one.extras.len() == 0 ==> extra_value(
            name,
            list.push(one),
            extras,
        ) == extra_value(name, list, extras),
        name == Some(one.name) ==> extra_value(
            name,
            list.push(RequirementView { extras: one.extras.push(more), ..one }),
            extras,
        ) == extra_value(name, list.push(one), extras) + extras.items[extras.keys.index_of(more)],
{
    let longer = RequirementView { extras: one.extras.push(more), ..one };
    assert(list.push(one).drop_last() =~= list);
    assert(list.push(longer).drop_last() =~= list);
    let before = extra_value(name, list, extras);
    if name != Some(one.name) {
        assert(before + seq![one] =~= before.push(one));
    } else {
        if one.extras.len() == 0 {
            assert(before + lists_of(one.extras, extras) =~= before);
        }
        assert(longer.extras.drop_last() =~= one.extras);
        assert(before + (lists_of(one.extras, extras) + extras.at(more)) =~= before + lists_of(
            one.extras,
            extras,
        ) + extras.at(more));
    }
}

/// The entries of a group are replaced one by one, in order: a match spec
/// and a specifier that names another project stand for themselves, one that
/// names the project itself for the lists of its extras, and a reference for
/// the list of the group it names.
pub proof fn group_is_expanded_entry_by_entry(
    name: Option<Seq<char>>,
    list: Seq<GroupEntryView>,
    one: GroupEntryView,
    extras: TableView<Seq<RequirementView>>,
    groups: TableView<Seq<DependencyView>>,
)
    ensures
        group_value(name, Seq::empty(), extras, groups).len() == 0,
        match one {
            GroupEntryView::IncludeGroup(group) => group_value(
                name,
                list.push(one),
                extras,
                groups,
            ) == group_value(name, list, extras, groups) + groups.items[groups.keys.index_of(
                group,
            )],
            GroupEntryView::Dependency(DependencyView::Matchspec(spec)) => group_value(
                name,
                list.push(one),
                extras,
                groups,
            ) == group_value(name, list, extras, groups).push(DependencyView::Matchspec(spec)),
            GroupEntryView::Dependency(DependencyView::Pep508(r)) => if name != Some(r.name) {
                group_value(name, list.push(one), extras, groups) == group_value(
                    name,
                    list,
                    extras,
                    groups,
                ).push(DependencyView::Pep508(r))
            } else {
                let added = extra_value(name, seq![r], extras);
                let before = group_value(name, list, extras, groups);
                let after = group_value(name, list.push(one), extras, groups);
                &&& after.len() == before.len() + added.len()
                &&& before.is_prefix_of(after)
                &&& forall|i: int|
                    0 <= i < added.len() ==> #[trigger] after[before.len() + i]
                        == DependencyView::Pep508(added[i])
            },
        },
{
    assert(list.push(one).drop_last() =~= list);
    let before = group_value(name, list, extras, groups);
    match one {
        GroupEntryView::IncludeGroup(group) => {},
        GroupEntryView::Dependency(DependencyView::Matchspec(spec)) => {
            assert(before + seq![DependencyView::Matchspec(spec)] =~= before.push(
                DependencyView::Matchspec(spec),
            ));
        },
        GroupEntryView::Dependency(DependencyView::Pep508(r)) => {
            reveal_with_fuel(extra_value, 2);
            assert(seq![r].drop_last() =~= Seq::<RequirementView>::empty());
            assert(extra_value(name, seq![r], extras) =~= requirement_value(name, r, extras));
            if name != Some(r.name) {
                assert(as_dependencies(seq![r]) =~= seq![DependencyView::Pep508(r)]);
                assert(before + seq![DependencyView::Pep508(r)] =~= before.push(
                    DependencyView::Pep508(r),
                ));
            }
        },
    }
}

/// Every resolved list is what the declared one stands for.
pub proof fn resolved_lists_stand_for_the_declared(d: Declared, r: ResolvedView, i: int)
    requires
        is_expansion(d, r),
    ensures
        0 <= i < r.extras.keys.len() ==> d.extras.keys.contains(r.extras.keys[i])
            && r.extras.items[i] == extra_value(
            d.name,
            d.extras.items[d.extras.keys.index_of(r.extras.keys[i])],
            r.extras,
        ),
        0 <= i < r.groups.keys.len() ==> d.groups.keys.contains(r.groups.keys[i])
            && r.groups.items[i] == group_value(
            d.name,
            d.groups.items[d.groups.keys.index_of(r.groups.keys[i])],
            r.extras,
            r.groups,
        ),
{
}

/// Where walking to an item that is not resolved yet fails at once: the item
/// is not declared, which names what refers to it; it leads to itself, which
/// names how; or ten references have been followed to it.
pub proof fn walk_fails_where(d: Declared, name: Seq<char>, done: Done, parents: Seq<ItemView>)
    ensures
        !done.extras.contains(name) && !d.extras.keys.contains(name) && parents.len() > 0 ==> walk(
            d,
            ItemView::Extra(name),
            done,
            parents,
        ) == Err::<Done, FailureView>(FailureView::ExtraNotFound(name, parents.last())),
        !done.groups.contains(name) && !d.groups.keys.contains(name) && parents.len() > 0 ==> walk(
            d,
            ItemView::Group(name),
            done,
            parents,
        ) == Err::<Done, FailureView>(FailureView::GroupNotFound(name, parents.last())),
        !done.extras.contains(name) && d.extras.keys.contains(name) && parents.contains(
            ItemView::Extra(name),
        ) ==> walk(d, ItemView::Extra(name), done, parents) == Err::<Done, FailureView>(
            FailureView::Cycle(parents),
        ),
        !done.groups.contains(name) && d.groups.keys.contains(name) && parents.contains(
            ItemView::Group(name),
        ) ==> walk(d, ItemView::Group(name), done, parents) == Err::<Done, FailureView>(
            FailureView::Cycle(parents),
        ),
        !done.extras.contains(name) && d.extras.keys.contains(name) && !parents.contains(
            ItemView::Extra(name),
        ) && parents.len() >= 10 ==> walk(d, ItemView::Extra(name), done, parents) == Err::<
            Done,
            FailureView,
        >(FailureView::TooDeep(10, parents)),
        !done.groups.contains(name) && d.groups.keys.contains(name) && !parents.contains(
            ItemView::Group(name),
        ) && parents.len() >= 10 ==> walk(d, ItemView::Group(name), done, parents) == Err::<
            Done,
            FailureView,
        >(FailureView::TooDeep(10, parents)),
{
}

/// An item that is declared, is not resolved yet, does not lead to itself
/// and is not too deep is resolved exactly where all it refers to is, one
/// after the other; it then stands behind all of that.
pub proof fn walk_follows_references(
    d: Declared,
    item: ItemView,
    done: Done,
    parents: Seq<ItemView>,
)
    requires
        d.has(item),
        !done.has(item),
        !parents.contains(item),
        parents.len() < 10,
    ensures
        match walk_all(d, d.refs(item), done, parents.push(item)) {
            Err(failure) => walk(d, item, done, parents) == Err::<Done, FailureView>(failure),
            Ok(after) => match (item, walk(d, item, done, parents)) {
                (ItemView::Extra(name), Ok(end)) => end.extras == after.extras.push(name)
                    && end.groups == after.groups,
                (ItemView::Group(name), Ok(end)) => end.groups == after.groups.push(name)
                    && end.extras == after.extras,
                _ => false,
            },
        },
{
}

/// A specifier refers to the project's extras that it names, if it names the
/// project itself, and to nothing else; an entry of a group also to the group
/// it includes. References are followed in the order in which they stand.
pub proof fn references_are_the_named_ones(
    name: Option<Seq<char>>,
    r: RequirementView,
    list: Seq<RequirementView>,
    e: GroupEntryView,
    entries: Seq<GroupEntryView>,
    i: int,
)
    ensures
        name != Some(r.name) ==> extra_refs(name, seq![r]).len() == 0,
        name == Some(r.name) ==> extra_refs(name, seq![r]).len() == r.extras.len(),
        name == Some(r.name) && 0 <= i < r.extras.len() ==> extra_refs(name, seq![r])[i]
            == ItemView::Extra(r.extras[i]),
        extra_refs(name, seq![r] + list) == extra_refs(name, seq![r]) + extra_refs(name, list),
        group_refs(name, seq![e] + entries) == group_refs(name, seq![e]) + group_refs(
            name,
            entries,
        ),
        match e {
            GroupEntryView::IncludeGroup(group) => group_refs(name, seq![e]) == seq![
                ItemView::Group(group),
            ],
            GroupEntryView::Dependency(DependencyView::Matchspec(_)) => group_refs(
                name,
                seq![e],
            ).len() == 0,
            GroupEntryView::Dependency(DependencyView::Pep508(s)) => group_refs(name, seq![e])
                == extra_refs(name, seq![s]),
        },
{
    reveal_with_fuel(extra_refs, 2);
    reveal_with_fuel(group_refs, 2);
    assert(seq![r].drop_first() =~= Seq::<RequirementView>::empty());
    assert((seq![r] + list).drop_first() =~= list);
    assert((seq![e] + entries).drop_first() =~= entries);
    assert(seq![e].drop_first() =~= Seq::<GroupEntryView>::empty());
    assert(extra_refs(name, seq![r]) =~= requirement_refs(name, r));
    assert(group_refs(name, seq![e]) =~= entry_refs(name, e));
    if let GroupEntryView::Dependency(DependencyView::Pep508(s)) = e {
        assert(seq![s].drop_first() =~= Seq::<RequirementView>::empty());
        assert(extra_refs(name, seq![s]) =~= requirement_refs(name, s));
    }
}

/// Extras and groups are told apart where they are named, and a chain of
/// them is shown from its start to its end.
pub proof fn chains_are_shown_in_order(items: Seq<ItemView>, item: ItemView, name: Seq<char>)
    ensures
        item_text(ItemView::Extra(name)) == "extra:"@ + name,
        item_text(ItemView::Group(name)) == "group:"@ + name,
        chain_text(seq![item]) == item_text(item),
        items.len() > 0 ==> chain_text(items.push(item)) == chain_text(items) + " -> "@ + item_text(
            item,
        ),
        items.len() > 0 ==> cycle_text(items) == chain_text(items) + " -> "@ + item_text(items[0]),
{
    assert(items.push(item).drop_last() =~= items);
}

/// Each failure says what could not be resolved, and by what it was asked
/// for.
pub proof fn failures_say_why(
    name: Seq<char>,
    by: ItemView,
    items: Seq<ItemView>,
    limit: nat,
)
    ensures
        failure_text(FailureView::ExtraNotFound(name, by))
            == "Failed to find optional dependency `"@ + name + "` included by "@ + item_text(by),
        failure_text(FailureView::GroupNotFound(name, by)) == "Failed to find dependency group `"@
            + name + "` included by "@ + item_text(by),
        failure_text(FailureView::Cycle(items)) == "Cycles are not supported: "@ + cycle_text(
            items,
        ),
        failure_text(FailureView::TooDeep(limit, items)) == "maximum reference depth ("@ + decimal(
            limit,
        ) + ") exceeded while resolving: "@ + chain_text(items),
{
}

} // verus!
