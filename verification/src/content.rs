//! Game definitions and their validation, kept separate from simulation behaviour.
use vstd::prelude::*;

use crate::infrastructure::ServiceKind;

verus! {

/// The player-facing description of a kind of service.
#[derive(Clone, Debug, PartialEq, Eq)]
pub struct ServiceDefinition {
    pub kind: ServiceKind,
    pub display_name: String,
    pub description: String,
}

/// A validated set of service definitions.
#[derive(Clone, Debug, PartialEq, Eq)]
pub struct ContentCatalog {
    services: Vec<ServiceDefinition>,
}

/// Why a set of definitions was rejected.
#[derive(Clone, Copy, Debug, PartialEq, Eq, Structural)]
pub enum ContentError {
    EmptyServiceName(ServiceKind),
    DuplicateService(ServiceKind),
}

/// Whether `ch` has the Unicode `White_Space` property.
pub open spec fn is_white_space(ch: char) -> bool {
    ||| '\u{9}' <= ch <= '\u{d}'
    ||| ch == ' '
    ||| ch == '\u{85}'
    ||| ch == '\u{a0}'
    ||| ch == '\u{1680}'
    ||| '\u{2000}' <= ch <= '\u{200a}'
    ||| ch == '\u{2028}'
    ||| ch == '\u{2029}'
    ||| ch == '\u{202f}'
    ||| ch == '\u{205f}'
    ||| ch == '\u{3000}'
}

/// Text with nothing but white space in it.
pub open spec fn is_blank(text: Seq<char>) -> bool {
    forall|i: int| 0 <= i < text.len() ==> #[trigger] is_white_space(text[i])
}

/// An earlier definition than the one at `index` has the same kind.
pub open spec fn defined_before(definitions: Seq<ServiceDefinition>, index: int) -> bool {
    exists|j: int| 0 <= j < index && #[trigger] definitions[j].kind == definitions[index].kind
}

/// What is wrong with the definition at `index`: a blank name first, then a repeated kind.
pub open spec fn problem_at(definitions: Seq<ServiceDefinition>, index: int) -> Option<ContentError> {
    let kind = definitions[index].kind;
    if is_blank(definitions[index].display_name@) {
        Some(ContentError::EmptyServiceName(kind))
    } else if defined_before(definitions, index) {
        Some(ContentError::DuplicateService(kind))
    } else {
        None
    }
}

/// The problem of the first of the first `count` definitions that has one.
pub open spec fn first_problem(definitions: Seq<ServiceDefinition>, count: int) -> Option<
    ContentError,
>
    decreases count,
{
    if count <= 0 {
        None
    } else {
        match first_problem(definitions, count - 1) {
            Some(error) => Some(error),
            None => problem_at(definitions, count - 1),
        }
    }
}

/// Once a problem is found, later definitions do not change which one is reported.
proof fn lemma_first_problem_stays(definitions: Seq<ServiceDefinition>, count: int, more: int)
    requires
        count <= more,
        first_problem(definitions, count) is Some,
    ensures
        first_problem(definitions, more) == first_problem(definitions, count),
    decreases more - count,
{
    if count < more {
        lemma_first_problem_stays(definitions, count, more - 1);
    }
}

/// Definitions that a catalog accepts.
pub open spec fn definitions_valid(definitions: Seq<ServiceDefinition>) -> bool {
    first_problem(definitions, definitions.len() as int) is None
}

/// Index of the first definition of `kind`.
pub open spec fn definition_position(definitions: Seq<ServiceDefinition>, kind: ServiceKind) -> Option<
    int,
>
    decreases definitions.len(),
{
    if definitions.len() == 0 {
        None
    } else if definitions[0].kind == kind {
        Some(0)
    } else {
        match definition_position(definitions.drop_first(), kind) {
            Some(i) => Some(i + 1),
            None => None,
        }
    }
}

/// The kind of the built-in definition at `index`.
pub open spec fn builtin_kind(index: int) -> ServiceKind {
    if index == 0 {
        ServiceKind::InternetGateway
    } else if index == 1 {
        ServiceKind::Firewall
    } else if index == 2 {
        ServiceKind::LoadBalancer
    } else {
        ServiceKind::ApplicationServer
    }
}

/// The built-in name of a kind.
pub open spec fn builtin_name(kind: ServiceKind) -> Seq<char> {
    match kind {
        ServiceKind::InternetGateway => "Internet Gateway"@,
        ServiceKind::Firewall => "Firewall"@,
        ServiceKind::LoadBalancer => "Load Balancer"@,
        _ => "Application Server"@,
    }
}

/// The built-in description of a kind.
pub open spec fn builtin_description(kind: ServiceKind) -> Seq<char> {
    match kind {
        ServiceKind::InternetGateway => "Provides an entry point for incoming internet traffic."@,
        ServiceKind::Firewall => "Blocks attacks when every ingress path passes through it."@,
        ServiceKind::LoadBalancer => "Distributes incoming traffic across downstream services."@,
        _ => "Runs application code and handles incoming requests."@,
    }
}

/// The name of a kind as it appears in the code.
pub open spec fn kind_identifier(kind: ServiceKind) -> Seq<char> {
    match kind {
        ServiceKind::InternetGateway => "InternetGateway"@,
        ServiceKind::Firewall => "Firewall"@,
        ServiceKind::LoadBalancer => "LoadBalancer"@,
        ServiceKind::ApplicationServer => "ApplicationServer"@,
        ServiceKind::MessageQueue => "MessageQueue"@,
        ServiceKind::PubSubTopic => "PubSubTopic"@,
        ServiceKind::EventBus => "EventBus"@,
    }
}

/// Whether `ch` has the Unicode `White_Space` property.
fn white_space(ch: char) -> (b: bool)
    ensures
        b == is_white_space(ch),
{
    ('\u{9}' <= ch && ch <= '\u{d}') || ch == ' ' || ch == '\u{85}' || ch == '\u{a0}' || ch
        == '\u{1680}' || ('\u{2000}' <= ch && ch <= '\u{200a}') || ch == '\u{2028}' || ch
        == '\u{2029}' || ch == '\u{202f}' || ch == '\u{205f}' || ch == '\u{3000}'
}

/// Whether `text` holds nothing but white space.
fn blank(text: &str) -> (b: bool)
    ensures
        b == is_blank(text@),
{
    let len = text.unicode_len();
    let mut i: usize = 0;
    while i < len
        invariant
            i <= len,
            len == text@.len(),
            forall|j: int| 0 <= j < i ==> #[trigger] is_white_space(text@[j]),
        decreases len - i,
    {
        if !white_space(text.get_char(i)) {
            return false;
        }
        i = i + 1;
    }
    true
}

impl ContentCatalog {
    pub closed spec fn spec_services(self) -> Seq<ServiceDefinition> {
        self.services@
    }

    /// The catalog's definitions pass validation.
    pub closed spec fn wf(self) -> bool {
        definitions_valid(self.services@)
    }

    /// The definitions that ship with the game, one for each kind of request-path service.
    pub fn builtin() -> (catalog: Self)
        ensures
            catalog.wf(),
            catalog.spec_services().len() == 4,
            forall|i: int|
                0 <= i < 4 ==> {
                    let definition = #[trigger] catalog.spec_services()[i];
                    &&& definition.kind == builtin_kind(i)
                    &&& definition.display_name@ == builtin_name(builtin_kind(i))
                    &&& definition.description@ == builtin_description(builtin_kind(i))
                },
    {
        let mut services: Vec<ServiceDefinition> = Vec::new();
        services.push(
            ServiceDefinition {
                kind: ServiceKind::InternetGateway,
                display_name: "Internet Gateway".to_owned(),
                description: "Provides an entry point for incoming internet traffic.".to_owned(),
            },
        );
        services.push(
            ServiceDefinition {
                kind: ServiceKind::Firewall,
                display_name: "Firewall".to_owned(),
                description: "Blocks attacks when every ingress path passes through it.".to_owned(),
            },
        );
        services.push(
            ServiceDefinition {
                kind: ServiceKind::LoadBalancer,
                display_name: "Load Balancer".to_owned(),
                description: "Distributes incoming traffic across downstream services.".to_owned(),
            },
        );
        services.push(
            ServiceDefinition {
                kind: ServiceKind::ApplicationServer,
                display_name: "Application Server".to_owned(),
                description: "Runs application code and handles incoming requests.".to_owned(),
            },
        );
        proof {
            reveal_strlit("Internet Gateway");
            reveal_strlit("Firewall");
            reveal_strlit("Load Balancer");
            reveal_strlit("Application Server");
            let defs = services@;
            assert(!is_white_space(defs[0].display_name@[0]));
            assert(!is_white_space(defs[1].display_name@[0]));
            assert(!is_white_space(defs[2].display_name@[0]));
            assert(!is_white_space(defs[3].display_name@[0]));
            assert(!defined_before(defs, 0));
            assert(!defined_before(defs, 1));
            assert(!defined_before(defs, 2));
            assert(!defined_before(defs, 3));
            assert(first_problem(defs, 0) is None);
            assert(first_problem(defs, 1) is None);
            assert(first_problem(defs, 2) is None);
            assert(first_problem(defs, 3) is None);
            assert(first_problem(defs, 4) is None);
        }
        Self { services }
    }

    /// Accepts `services` unless a definition has a blank name or repeats an earlier kind; the
    /// first such definition decides the error.
    pub fn new(services: Vec<ServiceDefinition>) -> (res: Result<Self, ContentError>)
        ensures
            match res {
                Ok(catalog) => definitions_valid(services@) && catalog.spec_services()
                    == services@ && catalog.wf(),
                Err(error) => first_problem(services@, services@.len() as int) == Some(error),
            },
    {
        let mut i: usize = 0;
        while i < services.len()
            invariant
                i <= services@.len(),
                first_problem(services@, i as int) is None,
            decreases services@.len() - i,
        {
            let kind = services[i].kind;
            if blank(services[i].display_name.as_str()) {
                proof {
                    lemma_first_problem_stays(services@, i + 1, services@.len() as int);
                }
                return Err(ContentError::EmptyServiceName(kind));
            }
            let mut j: usize = 0;
            while j < i
                invariant
                    j <= i < services@.len(),
                    kind == services@[i as int].kind,
                    !is_blank(services@[i as int].display_name@),
                    first_problem(services@, i as int) is None,
                    forall|k: int| 0 <= k < j ==> #[trigger] services@[k].kind != kind,
                decreases i - j,
            {
                if services[j].kind == kind {
                    proof {
                        assert(defined_before(services@, i as int));
                        lemma_first_problem_stays(services@, i + 1, services@.len() as int);
                    }
                    return Err(ContentError::DuplicateService(kind));
                }
                j = j + 1;
            }
            i = i + 1;
        }
        Ok(Self { services })
    }

    pub fn services(&self) -> (services: &[ServiceDefinition])
        ensures
            services@ == self.spec_services(),
    {
        self.services.as_slice()
    }

    /// The first definition of `kind`.
    pub fn service(&self, kind: ServiceKind) -> (definition: Option<&ServiceDefinition>)
        ensures
            match definition {
                Some(d) => definition_position(self.spec_services(), kind) matches Some(i) && *d
                    == self.spec_services()[i],
                None => definition_position(self.spec_services(), kind) is None,
            },
    {
        proof {
            lemma_definition_position(self.services@, kind);
        }
        let mut i: usize = 0;
        while i < self.services.len()
            invariant
                i <= self.services@.len(),
                forall|j: int| 0 <= j < i ==> #[trigger] self.services@[j].kind != kind,
            decreases self.services@.len() - i,
        {
            if self.services[i].kind == kind {
                proof {
                    lemma_definition_position_at(self.services@, kind, i as int);
                }
                return Some(&self.services[i]);
            }
            i = i + 1;
        }
        None
    }
}

/// `definition_position` finds the first definition of the kind, or reports that there is none.
pub proof fn lemma_definition_position(definitions: Seq<ServiceDefinition>, kind: ServiceKind)
    ensures
        match definition_position(definitions, kind) {
            Some(i) => 0 <= i < definitions.len() && definitions[i].kind == kind && forall|j: int|
                0 <= j < i ==> #[trigger] definitions[j].kind != kind,
            None => forall|j: int| 0 <= j < definitions.len() ==> #[trigger] definitions[j].kind != kind,
        },
    decreases definitions.len(),
{
    if definitions.len() > 0 && definitions[0].kind != kind {
        lemma_definition_position(definitions.drop_first(), kind);
        assert forall|j: int| 0 < j < definitions.len() implies #[trigger] definitions[j]
            == definitions.drop_first()[j - 1] by {}
    }
}

/// The first index with the kind is where `definition_position` points.
proof fn lemma_definition_position_at(definitions: Seq<ServiceDefinition>, kind: ServiceKind, i: int)
    requires
        0 <= i < definitions.len(),
        definitions[i].kind == kind,
        forall|j: int| 0 <= j < i ==> #[trigger] definitions[j].kind != kind,
    ensures
        definition_position(definitions, kind) == Some(i),
{
    lemma_definition_position(definitions, kind);
    match definition_position(definitions, kind) {
        Some(p) => {
            if p < i {
                assert(definitions[p].kind != kind);
            } else if p > i {
                assert(definitions[i].kind != kind);
            }
        },
        None => {
            assert(definitions[i].kind != kind);
        },
    }
}

impl ContentError {
    /// The error as a sentence.
    pub open spec fn spec_message(self) -> Seq<char> {
        match self {
            ContentError::EmptyServiceName(kind) => "service "@ + kind_identifier(kind)
                + " has an empty name"@,
            ContentError::DuplicateService(kind) => "service "@ + kind_identifier(kind)
                + " is defined twice"@,
        }
    }

    pub fn to_string(&self) -> (text: String)
        ensures
            text@ == self.spec_message(),
    {
        let (kind, rest) = match *self {
            ContentError::EmptyServiceName(kind) => (kind, " has an empty name"),
            ContentError::DuplicateService(kind) => (kind, " is defined twice"),
        };
        let mut text = String::new();
        text.append("service ");
        text.append(kind_name(kind));
        text.append(rest);
        assert(text@ =~= self.spec_message());
        text
    }
}

/// The name of a kind as it appears in the code.
fn kind_name(kind: ServiceKind) -> (name: &'static str)
    ensures
        name@ == kind_identifier(kind),
{
    match kind {
        ServiceKind::InternetGateway => "InternetGateway",
        ServiceKind::Firewall => "Firewall",
        ServiceKind::LoadBalancer => "LoadBalancer",
        ServiceKind::ApplicationServer => "ApplicationServer",
        ServiceKind::MessageQueue => "MessageQueue",
        ServiceKind::PubSubTopic => "PubSubTopic",
        ServiceKind::EventBus => "EventBus",
    }
}


/// No problem among the first `count` definitions means no definition among them has one.
proof fn lemma_no_problem_among(definitions: Seq<ServiceDefinition>, count: int)
    requires
        0 <= count,
    ensures
        first_problem(definitions, count) is None <==> forall|i: int|
            0 <= i < count ==> #[trigger] problem_at(definitions, i) is None,
    decreases count,
{
    if count > 0 {
        lemma_no_problem_among(definitions, count - 1);
        if first_problem(definitions, count) is None {
            assert forall|i: int| 0 <= i < count implies #[trigger] problem_at(definitions, i)
                is None by {
                if i < count - 1 {
                    assert(problem_at(definitions, i) is None);
                }
            }
        }
    }
}

/// A catalog accepts a list of definitions exactly when no display name is blank and no kind
/// is defined twice.
pub proof fn law_catalog_accepts_exactly_valid_definitions(definitions: Seq<ServiceDefinition>)
    ensures
        definitions_valid(definitions) <==> (forall|i: int|
            0 <= i < definitions.len() ==> !is_blank(#[trigger] definitions[i].display_name@))
            && (forall|i: int, j: int|
            0 <= i < j < definitions.len() ==> #[trigger] definitions[i].kind
                != #[trigger] definitions[j].kind),
{
    let n = definitions.len() as int;
    lemma_no_problem_among(definitions, n);
    if definitions_valid(definitions) {
        assert forall|i: int| 0 <= i < n implies !is_blank(
            #[trigger] definitions[i].display_name@,
        ) by {
            assert(problem_at(definitions, i) is None);
        }
        assert forall|i: int, j: int| 0 <= i < j < n implies #[trigger] definitions[i].kind
            != #[trigger] definitions[j].kind by {
            assert(problem_at(definitions, j) is None);
            if definitions[i].kind == definitions[j].kind {
                assert(defined_before(definitions, j));
            }
        }
    } else {
        let k = choose|k: int| 0 <= k < n && !(#[trigger] problem_at(definitions, k) is None);
        if !is_blank(definitions[k].display_name@) {
            assert(defined_before(definitions, k));
            let j = choose|j: int| 0 <= j < k && #[trigger] definitions[j].kind == definitions[k].kind;
            assert(definitions[j].kind == definitions[k].kind);
        }
    }
}

} // verus!
