//! The pages of the service: templates that are registered once, when the
//! service starts, and rendered for each answer.
use vstd::prelude::*;
use vstd::string::StringExecFns;
use crate::url_shortener::inclusion::{
    chars_of, ends_within, holds_tag, lemma_ends_within_more, lemma_ranked_templates_end,
    may_include, names_plainly, readable, same_chars, takes_in,
};

verus! {

/// Where the templates are looked for when no directory is configured.
pub const DEFAULT_WWW_DIR: &'static str = "/var/www/psag.cc/static/www";

/// The registry of the `handlebars` crate: compiled templates under their
/// names.
#[verifier::external_type_specification]
#[verifier::external_body]
pub struct ExHandlebars<'reg>(handlebars::Handlebars<'reg>);

/// The templates that a registry holds: under each name, the source that
/// was registered last under it.
pub uninterp spec fn templates_of(
    registry: handlebars::Handlebars<'static>,
) -> Map<Seq<char>, Seq<char>>;

/// What is wrong with the template `source` when it is compiled under `name`:
/// the compiler's report, or `None` where it compiles.
pub uninterp spec fn template_error(name: Seq<char>, source: Seq<char>) -> Option<Seq<char>>;

/// What comes of rendering the template `name` out of `templates`: the page,
/// or `None` where the renderer fails. With `Some` values the template sees a
/// map from each first text to its second, the last pair counting where a
/// first text repeats; with `None` it sees no data at all.
pub uninterp spec fn rendering(
    templates: Map<Seq<char>, Seq<char>>,
    name: Seq<char>,
    values: Option<Seq<(Seq<char>, Seq<char>)>>,
) -> Option<Seq<char>>;

/// A registry's templates before any is registered.
pub open spec fn no_templates() -> Map<Seq<char>, Seq<char>> {
    Map::empty()
}

/// `Handlebars::new` makes a registry with the built-in helpers and without
/// any template.
#[verifier::external_body]
fn empty_registry() -> (registry: handlebars::Handlebars<'static>)
    ensures
        templates_of(registry) == no_templates(),
{
    handlebars::Handlebars::new()
}

/// `Handlebars::register_template_string` compiles `source` and, if that
/// succeeds, stores the result under `name`, in place of what was there. If it
/// fails, the registry is left as it was and the text that the `TemplateError`
/// displays is handed back. Whether it fails depends on `name` and `source`
/// alone; the template syntax is not spelled out here.
#[verifier::external_body]
fn register(
    registry: &mut handlebars::Handlebars<'static>,
    name: &str,
    source: &str,
) -> (done: Result<(), String>)
    ensures
        done matches Ok(_) ==> template_error(name@, source@) is None && templates_of(
            *final(registry),
        ) == templates_of(*old(registry)).insert(name@, source@),
        done matches Err(report) ==> template_error(name@, source@) == Some(report@)
            && templates_of(*final(registry)) == templates_of(*old(registry)),
{
    registry.register_template_string(name, source).map_err(|error| error.to_string())
}

/// `Handlebars::render` renders the template registered under `name` with the
/// data it is given: here a map made of `values`, or nothing. It hands back the
/// page, or else the text that the `RenderError` displays, as it does when no
/// template has that name. Whether it fails, and the page where it does not,
/// depend on the registered templates, `name` and the data alone. Nothing is
/// said of the report: where several things are wrong, which of them it names
/// may differ from one call to the next.
///
/// The renderer follows every tag that takes a template in, and a template
/// that is reached again from itself is rendered until the stack is used up.
/// Hence the demand that the tags of `name` end within some depth.
#[verifier::external_body]
fn render(
    registry: &handlebars::Handlebars<'static>,
    name: &str,
    values: Option<&Vec<(String, String)>>,
) -> (page: Result<String, String>)
    requires
        exists|depth: nat| ends_within(templates_of(*registry), name@, depth),
    ensures
        page matches Ok(text) ==> rendering(templates_of(*registry), name@, values.deep_view())
            == Some(text@),
        page is Err ==> rendering(templates_of(*registry), name@, values.deep_view()) is None,
{
    let data: Option<std::collections::BTreeMap<&str, &str>> = values.map(
        |pairs| pairs.iter().map(|pair| (pair.0.as_str(), pair.1.as_str())).collect(),
    );
    registry.render(name, &data).map_err(|error| error.to_string())
}

/// A template as it was read: its name and its source.
#[derive(Clone, Debug, PartialEq, Eq)]
pub struct Resource {
    pub name: String,
    pub content: String,
}

impl View for Resource {
    type V = (Seq<char>, Seq<char>);

    open spec fn view(&self) -> (Seq<char>, Seq<char>) {
        (self.name@, self.content@)
    }
}

/// The names and sources of `resources`, in their order.
pub open spec fn sources_of(resources: Seq<Resource>) -> Seq<(Seq<char>, Seq<char>)> {
    Seq::new(resources.len(), |i: int| resources[i]@)
}

/// Why a page could not be had.
#[derive(Clone, Debug, PartialEq, Eq)]
pub enum ResourceError {
    /// The template `name` is not rendered, because its tags cannot be
    /// followed or lead on without end: see `ResourceManager::renders`.
    Inclusion { name: String },
    /// The template `name` does not compile.
    Template { name: String, report: String },
    /// The template `name` could not be rendered.
    Render { name: String, report: String },
}

/// A `ResourceError` with its texts as character sequences.
pub enum ResourceErrorView {
    Inclusion { name: Seq<char> },
    Template { name: Seq<char>, report: Seq<char> },
    Render { name: Seq<char>, report: Seq<char> },
}

impl View for ResourceError {
    type V = ResourceErrorView;

    open spec fn view(&self) -> ResourceErrorView {
        match self {
            ResourceError::Inclusion { name } => ResourceErrorView::Inclusion { name: name@ },
            ResourceError::Template { name, report } => ResourceErrorView::Template {
                name: name@,
                report: report@,
            },
            ResourceError::Render { name, report } => ResourceErrorView::Render {
                name: name@,
                report: report@,
            },
        }
    }
}

impl ResourceErrorView {
    /// What is reported: the report of the compiler or the renderer, or a
    /// sentence on the template that is not rendered.
    pub open spec fn message(self) -> Seq<char> {
        match self {
            ResourceErrorView::Inclusion { name } => "Template "@ + name
                + " is not rendered: its tags cannot be followed to an end"@,
            ResourceErrorView::Template { name, report } => report,
            ResourceErrorView::Render { name, report } => report,
        }
    }
}

impl ResourceError {
    /// What is reported.
    pub fn message(&self) -> (text: String)
        ensures
            text@ == self@.message(),
    {
        match self {
            ResourceError::Inclusion { name } => {
                let mut text = String::from_str("Template ");
                text.append(name.as_str());
                text.append(" is not rendered: its tags cannot be followed to an end");
                text
            },
            ResourceError::Template { name, report } => report.clone(),
            ResourceError::Render { name, report } => report.clone(),
        }
    }
}

/// The place of the first of `sources` that is `bad`.
pub open spec fn first_where(
    sources: Seq<(Seq<char>, Seq<char>)>,
    bad: spec_fn((Seq<char>, Seq<char>)) -> bool,
) -> Option<int>
    decreases sources.len(),
{
    if sources.len() == 0 {
        None
    } else {
        match first_where(sources.drop_last(), bad) {
            Some(place) => Some(place),
            None => if bad(sources.last()) {
                Some(sources.len() - 1)
            } else {
                None
            },
        }
    }
}

/// What is bad among the first `count` sources is bad among all, and is
/// found at the same place.
proof fn lemma_first_where_stays(
    sources: Seq<(Seq<char>, Seq<char>)>,
    bad: spec_fn((Seq<char>, Seq<char>)) -> bool,
    count: int,
)
    requires
        0 <= count <= sources.len(),
        first_where(sources.take(count), bad) is Some,
    ensures
        first_where(sources, bad) == first_where(sources.take(count), bad),
    decreases sources.len() - count,
{
    if count < sources.len() {
        assert(sources.take(count + 1).drop_last() =~= sources.take(count));
        lemma_first_where_stays(sources, bad, count + 1);
    } else {
        assert(sources.take(count) =~= sources);
    }
}

/// What a failed registration reports: the first of `sources` that does not
/// compile, with the compiler's report.
pub open spec fn refusal(sources: Seq<(Seq<char>, Seq<char>)>) -> Option<ResourceErrorView> {
    match first_where(
        sources,
        |source: (Seq<char>, Seq<char>)| template_error(source.0, source.1) is Some,
    ) {
        Some(place) => Some(
            ResourceErrorView::Template {
                name: sources[place].0,
                report: template_error(sources[place].0, sources[place].1)->0,
            },
        ),
        None => None,
    }
}

/// The templates after `sources` were registered on top of `base`, one after
/// the other: a later source replaces an earlier one of the same name.
pub open spec fn registered_onto(
    base: Map<Seq<char>, Seq<char>>,
    sources: Seq<(Seq<char>, Seq<char>)>,
) -> Map<Seq<char>, Seq<char>>
    decreases sources.len(),
{
    if sources.len() == 0 {
        base
    } else {
        registered_onto(base, sources.drop_last()).insert(sources.last().0, sources.last().1)
    }
}

/// What a manager holds, or why there is none: every source must compile;
/// the partials are registered and, on top of them, the templates. Whatever
/// compiles is registered.
pub open spec fn manager_of(
    templates: Seq<(Seq<char>, Seq<char>)>,
    partials: Seq<(Seq<char>, Seq<char>)>,
) -> Result<Map<Seq<char>, Seq<char>>, ResourceErrorView> {
    if refusal(partials) is Some {
        Err(refusal(partials)->0)
    } else if refusal(templates) is Some {
        Err(refusal(templates)->0)
    } else {
        Ok(registered_onto(registered_onto(no_templates(), partials), templates))
    }
}

/// How deep the tags of a template are followed at most before it is held
/// to lead on without end: as deep as there are sources. No chain of
/// templates that are all different is longer.
pub open spec fn depth_limit(templates: nat, partials: nat) -> nat {
    if templates + partials <= usize::MAX {
        templates + partials
    } else {
        usize::MAX as nat
    }
}

/// Whether `names` and `texts` list what is registered: each name once, with
/// its source.
pub open spec fn lists(
    names: Seq<Vec<char>>,
    texts: Seq<Vec<char>>,
    templates: Map<Seq<char>, Seq<char>>,
) -> bool {
    &&& names.len() == texts.len()
    &&& forall|i: int, j: int|
        0 <= i < j < names.len() ==> (#[trigger] names[i])@ != (#[trigger] names[j])@
    &&& forall|i: int|
        0 <= i < names.len() ==> templates.dom().contains((#[trigger] names[i])@)
            && templates[names[i]@] == texts[i]@
    &&& forall|name: Seq<char>| #[trigger]
        templates.dom().contains(name) ==> exists|i: int|
            0 <= i < names.len() && (#[trigger] names[i])@ == name
}

/// Where `name` stands among `names`.
fn place_of(names: &Vec<Vec<char>>, name: &Vec<char>) -> (place: Option<usize>)
    ensures
        match place {
            Some(at) => at < names.len() && names[at as int]@ == name@,
            None => forall|i: int| 0 <= i < names.len() ==> (#[trigger] names[i])@ != name@,
        },
{
    let mut at: usize = 0;
    while at < names.len()
        invariant
            at <= names.len(),
            forall|i: int| 0 <= i < at ==> (#[trigger] names[i])@ != name@,
        decreases names.len() - at,
    {
        if same_chars(&names[at], name) {
            return Some(at);
        }
        at = at + 1;
    }
    None
}

/// Notes that `text` is now registered under `name`.
fn note(
    names: &mut Vec<Vec<char>>,
    texts: &mut Vec<Vec<char>>,
    name: Vec<char>,
    text: Vec<char>,
    Ghost(templates): Ghost<Map<Seq<char>, Seq<char>>>,
)
    requires
        lists(old(names)@, old(texts)@, templates),
    ensures
        lists(final(names)@, final(texts)@, templates.insert(name@, text@)),
{
    let ghost after = templates.insert(name@, text@);
    match place_of(names, &name) {
        Some(at) => {
            let ghost before = texts@;
            texts.set(at, text);
            assert forall|i: int| 0 <= i < names.len() implies after.dom().contains(
                (#[trigger] names[i])@,
            ) && after[names[i]@] == texts[i]@ by {
                if i != at {
                    assert(names[i]@ != names[at as int]@);
                    assert(texts[i] == before[i]);
                }
            }
            assert forall|any: Seq<char>| #[trigger] after.dom().contains(any) implies exists|
                i: int,
            |
                0 <= i < names.len() && (#[trigger] names[i])@ == any by {
                if any == name@ {
                    assert(names[at as int]@ == any);
                } else {
                    assert(templates.dom().contains(any));
                }
            }
        },
        None => {
            let ghost old_names = names@;
            let ghost old_texts = texts@;
            names.push(name);
            texts.push(text);
            assert forall|i: int, j: int| 0 <= i < j < names.len() implies (#[trigger] names[i])@
                != (#[trigger] names[j])@ by {
                assert(names[i] == old_names[i]);
                if j < old_names.len() {
                    assert(names[j] == old_names[j]);
                }
            }
            assert forall|i: int| 0 <= i < names.len() implies after.dom().contains(
                (#[trigger] names[i])@,
            ) && after[names[i]@] == texts[i]@ by {
                if i < old_names.len() {
                    assert(names[i] == old_names[i]);
                    assert(texts[i] == old_texts[i]);
                }
            }
            assert forall|any: Seq<char>| #[trigger] after.dom().contains(any) implies exists|
                i: int,
            |
                0 <= i < names.len() && (#[trigger] names[i])@ == any by {
                if any == name@ {
                    assert(names[names.len() - 1]@ == any);
                } else {
                    assert(templates.dom().contains(any));
                    let i = choose|i: int|
                        0 <= i < old_names.len() && (#[trigger] old_names[i])@ == any;
                    assert(names[i] == old_names[i]);
                }
            }
        },
    }
}

/// Registers `resources` in their order, up to the first that does not
/// compile, and notes each that was registered.
fn register_all(
    registry: &mut handlebars::Handlebars<'static>,
    names: &mut Vec<Vec<char>>,
    texts: &mut Vec<Vec<char>>,
    resources: &Vec<Resource>,
) -> (done: Result<(), ResourceError>)
    requires
        lists(old(names)@, old(texts)@, templates_of(*old(registry))),
    ensures
        match done {
            Ok(_) => refusal(sources_of(resources@)) is None && templates_of(*final(registry))
                == registered_onto(templates_of(*old(registry)), sources_of(resources@))
                && lists(final(names)@, final(texts)@, templates_of(*final(registry))),
            Err(error) => refusal(sources_of(resources@)) == Some(error@),
        },
{
    let ghost sources = sources_of(resources@);
    let ghost base = templates_of(*registry);
    let ghost bad = |source: (Seq<char>, Seq<char>)| template_error(source.0, source.1) is Some;
    let mut next: usize = 0;
    while next < resources.len()
        invariant
            sources == sources_of(resources@),
            bad == |source: (Seq<char>, Seq<char>)| template_error(source.0, source.1) is Some,
            0 <= next <= resources.len(),
            first_where(sources.take(next as int), bad) is None,
            templates_of(*registry) == registered_onto(base, sources.take(next as int)),
            lists(names@, texts@, templates_of(*registry)),
        decreases resources.len() - next,
    {
        let resource = &resources[next];
        let ghost before = templates_of(*registry);
        proof {
            assert(sources.take(next + 1).drop_last() =~= sources.take(next as int));
            assert(sources.take(next + 1).last() == resource@);
        }
        match register(registry, resource.name.as_str(), resource.content.as_str()) {
            Ok(_) => {
                note(
                    names,
                    texts,
                    chars_of(resource.name.as_str()),
                    chars_of(resource.content.as_str()),
                    Ghost(before),
                );
            },
            Err(report) => {
                proof {
                    lemma_first_where_stays(sources, bad, next + 1);
                }
                return Err(ResourceError::Template { name: resource.name.clone(), report });
            },
        }
        next = next + 1;
    }
    assert(sources.take(next as int) =~= sources);
    Ok(())
}

/// Whether the template with the source `text` ends one level deeper than
/// those of `names` that `ends` marks.
fn ends_next(
    names: &Vec<Vec<char>>,
    text: &Vec<char>,
    ends: &Vec<bool>,
) -> (fine: bool)
    requires
        ends.len() == names.len(),
    ensures
        fine == (readable(text@) && forall|k: int|
            0 <= k < names.len() && may_include(text@, (#[trigger] names[k])@) ==> ends[k]),
{
    if !names_plainly(text) || holds_tag(text, '*') {
        return false;
    }
    let mut next: usize = 0;
    while next < names.len()
        invariant
            ends.len() == names.len(),
            0 <= next <= names.len(),
            forall|k: int|
                0 <= k < next && may_include(text@, (#[trigger] names[k])@) ==> ends[k],
        decreases names.len() - next,
    {
        if takes_in(text, &names[next]) && !ends[next] {
            return false;
        }
        next = next + 1;
    }
    true
}

/// Marks the templates that end within one level more than `depth`, given
/// those that end within `depth`.
fn deepen(
    names: &Vec<Vec<char>>,
    texts: &Vec<Vec<char>>,
    ends: &Vec<bool>,
    Ghost(templates): Ghost<Map<Seq<char>, Seq<char>>>,
    Ghost(depth): Ghost<nat>,
) -> (deeper: Vec<bool>)
    requires
        lists(names@, texts@, templates),
        ends.len() == names.len(),
        forall|i: int|
            0 <= i < names.len() ==> #[trigger] ends[i] == ends_within(
                templates,
                names[i]@,
                depth,
            ),
    ensures
        deeper.len() == names.len(),
        forall|i: int|
            0 <= i < names.len() ==> #[trigger] deeper[i] == ends_within(
                templates,
                names[i]@,
                depth + 1,
            ),
{
    let mut deeper: Vec<bool> = Vec::new();
    let mut next: usize = 0;
    while next < names.len()
        invariant
            lists(names@, texts@, templates),
            ends.len() == names.len(),
            forall|i: int|
                0 <= i < names.len() ==> #[trigger] ends[i] == ends_within(
                    templates,
                    names[i]@,
                    depth,
                ),
            0 <= next <= names.len(),
            deeper.len() == next,
            forall|i: int|
                0 <= i < next ==> #[trigger] deeper[i] == ends_within(
                    templates,
                    names[i]@,
                    depth + 1,
                ),
        decreases names.len() - next,
    {
        let fine = ends_next(names, &texts[next], ends);
        proof {
            let name = names[next as int]@;
            let text = texts[next as int]@;
            assert(templates.dom().contains(name) && templates[name] == text);
            if fine {
                assert forall|part: Seq<char>|
                    templates.dom().contains(part) && #[trigger] may_include(
                        text,
                        part,
                    ) implies ends_within(templates, part, depth) by {
                    let k = choose|k: int| 0 <= k < names.len() && (#[trigger] names[k])@ == part;
                    assert(ends[k]);
                }
            } else if readable(text) {
                let k = choose|k: int|
                    0 <= k < names.len() && may_include(text, (#[trigger] names[k])@) && !ends[k];
                assert(templates.dom().contains(names[k]@));
                assert(!ends_within(templates, names[k]@, depth));
            }
            assert(fine == ends_within(templates, name, depth + 1));
        }
        deeper.push(fine);
        next = next + 1;
    }
    deeper
}

/// Marks the templates whose tags end within `limit`.
fn settle(
    names: &Vec<Vec<char>>,
    texts: &Vec<Vec<char>>,
    limit: usize,
    Ghost(templates): Ghost<Map<Seq<char>, Seq<char>>>,
) -> (ends: Vec<bool>)
    requires
        lists(names@, texts@, templates),
    ensures
        ends.len() == names.len(),
        forall|i: int|
            0 <= i < names.len() ==> #[trigger] ends[i] == ends_within(
                templates,
                names[i]@,
                limit as nat,
            ),
{
    let mut ends: Vec<bool> = Vec::new();
    while ends.len() < names.len()
        invariant
            lists(names@, texts@, templates),
            ends.len() <= names.len(),
            forall|i: int| 0 <= i < ends.len() ==> !(#[trigger] ends[i]),
        decreases names.len() - ends.len(),
    {
        ends.push(false);
    }
    let mut depth: usize = 0;
    while depth < limit
        invariant
            lists(names@, texts@, templates),
            depth <= limit,
            ends.len() == names.len(),
            forall|i: int|
                0 <= i < names.len() ==> #[trigger] ends[i] == ends_within(
                    templates,
                    names[i]@,
                    depth as nat,
                ),
        decreases limit - depth,
    {
        ends = deepen(names, texts, &ends, Ghost(templates), Ghost(depth as nat));
        depth = depth + 1;
    }
    ends
}

/// The templates of the service, compiled and ready to be rendered.
pub struct ResourceManager {
    templates: handlebars::Handlebars<'static>,
    /// The names that are registered, each once.
    names: Vec<Vec<char>>,
    /// For each name, whether the tags of its template end within the limit.
    ends: Vec<bool>,
    limit: usize,
}

impl View for ResourceManager {
    type V = Map<Seq<char>, Seq<char>>;

    /// The source of each template, under its name.
    closed spec fn view(&self) -> Map<Seq<char>, Seq<char>> {
        templates_of(self.templates)
    }
}

/// What a render hands back, with its texts as character sequences.
pub open spec fn rendered_view(
    page: Result<String, ResourceError>,
) -> Result<Seq<char>, ResourceErrorView> {
    match page {
        Ok(text) => Ok(text@),
        Err(error) => Err(error@),
    }
}

/// Whether `named` is what a render of `name` hands back when the renderer
/// gave `page`: the page, or the renderer's report with the template's name.
pub open spec fn names_the_failure(
    name: Seq<char>,
    page: Result<String, String>,
    named: Result<String, ResourceError>,
) -> bool {
    match page {
        Ok(text) => rendered_view(named) == Ok::<Seq<char>, ResourceErrorView>(text@),
        Err(report) => rendered_view(named) == Err::<Seq<char>, ResourceErrorView>(
            ResourceErrorView::Render { name, report: report@ },
        ),
    }
}

/// Whether `ends` marks, for each of the `names` of what is registered, the
/// templates whose tags end within `limit`.
spec fn marks(
    templates: Map<Seq<char>, Seq<char>>,
    names: Seq<Vec<char>>,
    ends: Seq<bool>,
    limit: nat,
) -> bool {
    &&& names.len() == ends.len()
    &&& forall|i: int| 0 <= i < names.len() ==> templates.dom().contains((#[trigger] names[i])@)
    &&& forall|name: Seq<char>| #[trigger]
        templates.dom().contains(name) ==> exists|i: int|
            0 <= i < names.len() && (#[trigger] names[i])@ == name
    &&& forall|i: int|
        0 <= i < names.len() ==> #[trigger] ends[i] == ends_within(templates, names[i]@, limit)
}

impl ResourceManager {
    #[verifier::type_invariant]
    spec fn marked(self) -> bool {
        marks(templates_of(self.templates), self.names@, self.ends@, self.limit as nat)
    }

    /// How deep the tags of a template are followed at most.
    pub closed spec fn limit(&self) -> nat {
        self.limit as nat
    }

    /// Whether the template `name` is rendered: its tags, and those of what
    /// it takes in, can be followed by their names and end within the limit.
    /// A name that is not registered is left to the renderer.
    pub open spec fn renders(&self, name: Seq<char>) -> bool {
        ends_within(self@, name, self.limit())
    }

    /// What a render of `name` with `values` may hand back: the refusal
    /// where the template is not rendered, else the page, or, where the
    /// renderer fails, a report under the template's name.
    pub open spec fn hands_back(
        &self,
        name: Seq<char>,
        values: Option<Seq<(Seq<char>, Seq<char>)>>,
        page: Result<Seq<char>, ResourceErrorView>,
    ) -> bool {
        if !self.renders(name) {
            page == Err::<Seq<char>, ResourceErrorView>(ResourceErrorView::Inclusion { name })
        } else {
            match rendering(self@, name, values) {
                Some(text) => page == Ok::<Seq<char>, ResourceErrorView>(text),
                None => page matches Err(ResourceErrorView::Render { name: failed, report })
                    && failed == name,
            }
        }
    }

    /// Compiles the partials and then the templates, each in its order, and
    /// registers whatever compiles. The first source that does not compile
    /// ends it, with the compiler's report.
    pub fn new(
        templates: &Vec<Resource>,
        partials: &Vec<Resource>,
    ) -> (made: Result<ResourceManager, ResourceError>)
        ensures
            match made {
                Ok(manager) => manager_of(sources_of(templates@), sources_of(partials@)) == Ok::<
                    Map<Seq<char>, Seq<char>>,
                    ResourceErrorView,
                >(manager@) && manager.limit() == depth_limit(
                    templates@.len(),
                    partials@.len(),
                ),
                Err(error) => manager_of(sources_of(templates@), sources_of(partials@)) == Err::<
                    Map<Seq<char>, Seq<char>>,
                    ResourceErrorView,
                >(error@),
            },
    {
        let mut registry = empty_registry();
        let mut names: Vec<Vec<char>> = Vec::new();
        let mut texts: Vec<Vec<char>> = Vec::new();
        match register_all(&mut registry, &mut names, &mut texts, partials) {
            Ok(_) => {},
            Err(error) => {
                return Err(error);
            },
        }
        match register_all(&mut registry, &mut names, &mut texts, templates) {
            Ok(_) => {},
            Err(error) => {
                return Err(error);
            },
        }
        let limit: usize = if templates.len() <= usize::MAX - partials.len() {
            templates.len() + partials.len()
        } else {
            usize::MAX
        };
        let ends = settle(&names, &texts, limit, Ghost(templates_of(registry)));
        proof {
            let held = templates_of(registry);
            assert(lists(names@, texts@, held));
            assert forall|i: int| 0 <= i < names@.len() implies #[trigger] ends@[i]
                == ends_within(held, names@[i]@, limit as nat) by {
                assert(ends[i] == ends_within(held, names[i]@, limit as nat));
            }
            assert(marks(held, names@, ends@, limit as nat));
        }
        Ok(ResourceManager { templates: registry, names, ends, limit })
    }

    /// Whether the template `name` is not rendered.
    fn leads_on(&self, name: &str) -> (refused: bool)
        ensures
            refused == !self.renders(name@),
    {
        proof {
            use_type_invariant(self);
        }
        let wanted = chars_of(name);
        match place_of(&self.names, &wanted) {
            Some(at) => {
                assert(self.ends@[at as int] == ends_within(
                    self@,
                    self.names@[at as int]@,
                    self.limit as nat,
                ));
                !self.ends[at]
            },
            None => {
                assert(!self@.dom().contains(name@)) by {
                    if self@.dom().contains(name@) {
                        let i = choose|i: int|
                            0 <= i < self.names@.len() && (#[trigger] self.names@[i])@ == name@;
                        assert(self.names[i]@ == name@);
                    }
                }
                false
            },
        }
    }

    /// Renders the template `name` without any data.
    pub fn get_template(&self, name: &str) -> (page: Result<String, ResourceError>)
        ensures
            self.hands_back(name@, None, rendered_view(page)),
    {
        if self.leads_on(name) {
            return Err(ResourceError::Inclusion { name: String::from_str(name) });
        }
        proof {
            use_type_invariant(self);
        }
        name_the_failure(name, render(&self.templates, name, None))
    }

    /// Renders the template `name` with `values`: the template sees each
    /// first text of a pair as a variable that holds the second.
    pub fn render_template(
        &self,
        name: &str,
        values: &Vec<(String, String)>,
    ) -> (page: Result<String, ResourceError>)
        ensures
            self.hands_back(name@, Some(values.deep_view()), rendered_view(page)),
    {
        if self.leads_on(name) {
            return Err(ResourceError::Inclusion { name: String::from_str(name) });
        }
        proof {
            use_type_invariant(self);
        }
        name_the_failure(name, render(&self.templates, name, Some(values)))
    }
}

/// A manager renders every template of a set that is readable and can be put
/// in ranks, each template above all that it may take in, as long as the
/// ranks stay below the manager's limit. Only a template whose tags cannot
/// be followed, or lead deeper than there are sources, is not rendered.
pub proof fn lemma_ranked_templates_are_rendered(
    manager: ResourceManager,
    rank: spec_fn(Seq<char>) -> nat,
    name: Seq<char>,
)
    requires
        forall|any: Seq<char>| #[trigger] manager@.dom().contains(any) ==> readable(manager@[any]),
        forall|from: Seq<char>, to: Seq<char>|
            manager@.dom().contains(from) && manager@.dom().contains(to)
                && #[trigger] may_include(manager@[from], to) ==> rank(to) < rank(from),
        rank(name) < manager.limit(),
    ensures
        manager.renders(name),
{
    lemma_ranked_templates_end(manager@, rank, name);
    lemma_ends_within_more(manager@, name, rank(name) + 1, manager.limit());
}

/// Hands a page on, and puts the name of the template to a report.
pub fn name_the_failure(
    name: &str,
    page: Result<String, String>,
) -> (named: Result<String, ResourceError>)
    ensures
        names_the_failure(name@, page, named),
{
    match page {
        Ok(text) => Ok(text),
        Err(report) => Err(ResourceError::Render { name: String::from_str(name), report }),
    }
}

/// The file that holds the template `name` below the directory `www`.
pub fn template_path(www: &str, name: &str) -> (path: String)
    ensures
        path@ == www@ + "/"@ + name@ + ".html"@,
{
    let mut path = String::from_str(www);
    path.append("/");
    path.append(name);
    path.append(".html");
    path
}

/// The file that holds the partial `name` below the directory `www`.
pub fn partial_path(www: &str, name: &str) -> (path: String)
    ensures
        path@ == www@ + "/"@ + name@ + ".partial.html"@,
{
    let mut path = String::from_str(www);
    path.append("/");
    path.append(name);
    path.append(".partial.html");
    path
}

} // verus!
