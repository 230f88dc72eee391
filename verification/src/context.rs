//! What the templates of a call are evaluated against.

use crate::json::JsonValue;
use vstd::prelude::*;

verus! {

/// Who makes a call.
#[derive(Debug)]
pub struct CallerIdentity {
    /// The subject.
    pub subject_id: Option<String>,
    /// How far the subject is trusted.
    pub trust_level: Option<String>,
    /// What authenticated the subject.
    pub auth_provider: Option<String>,
    /// The kind of identity.
    pub kind: Option<String>,
    /// The roles of the subject.
    pub roles: Vec<String>,
    /// The groups of the subject.
    pub groups: Vec<String>,
    /// The scopes of the subject.
    pub scopes: Vec<String>,
    /// More about the subject.
    pub attributes: JsonValue,
}

/// One request to a backend.
#[derive(Debug)]
pub struct BackendRequest {
    /// The id of the request.
    pub request_id: String,
    /// The session that the request belongs to.
    pub session_id: Option<String>,
    /// Who makes the request.
    pub identity: Option<CallerIdentity>,
}

/// What a host is told about the call that it resolves credentials for.
#[derive(Debug)]
pub struct BackendInvocationContext {
    /// The id of the request.
    pub request_id: String,
    /// The session that the request belongs to.
    pub session_id: Option<String>,
    /// The backend that the request goes to.
    pub backend_name: String,
    /// Who makes the request.
    pub identity: Option<CallerIdentity>,
}

/// What templates can read about a request, as `$context`.
#[derive(Debug)]
pub struct ExprRequestContext {
    /// `$context.session_id`.
    pub session_id: Option<String>,
    /// `$context.principal_id`.
    pub principal_id: Option<String>,
    /// `$context.trust_level`.
    pub trust_level: Option<String>,
    /// `$context.auth_provider`.
    pub auth_provider: Option<String>,
    /// `$context.transport`.
    pub transport: Option<String>,
    /// `$context.roles`.
    pub roles: Vec<String>,
    /// `$context.groups`.
    pub groups: Vec<String>,
    /// `$context.scopes`.
    pub scopes: Vec<String>,
    /// `$context.attributes`.
    pub attributes: JsonValue,
}

/// What templates are evaluated against.
#[derive(Debug)]
pub struct ExprContext {
    /// The arguments of the call.
    pub arguments: JsonValue,
    /// The name of the tool.
    pub tool_name: String,
    /// What templates can read about the request.
    pub context: ExprRequestContext,
    /// The results of earlier steps. A single call has none.
    pub steps: Option<JsonValue>,
    /// Environment variables. They are filled in before a profile is registered,
    /// so there are none.
    pub env: Vec<(String, String)>,
}

fn copy_text(text: &Option<String>) -> (copy: Option<String>)
    ensures
        crate::text::optional_text(copy) == crate::text::optional_text(*text),
{
    match text {
        Some(text) => Some(text.clone()),
        None => None,
    }
}

fn copy_texts(texts: &Vec<String>) -> (copies: Vec<String>)
    ensures
        crate::text::texts(copies@) == crate::text::texts(texts@),
{
    let mut copies: Vec<String> = Vec::new();
    let mut i: usize = 0;
    while i < texts.len()
        invariant
            i <= texts@.len(),
            copies@.len() == i,
            forall|j: int| 0 <= j < i ==> (#[trigger] copies@[j])@ == texts@[j]@,
        decreases texts@.len() - i,
    {
        copies.push(texts[i].clone());
        i = i + 1;
    }
    assert(crate::text::texts(copies@) =~= crate::text::texts(texts@));
    copies
}

/// Whether two identities are the same, field by field.
pub open spec fn same_caller(a: CallerIdentity, b: CallerIdentity) -> bool {
    &&& crate::text::optional_text(a.subject_id) == crate::text::optional_text(b.subject_id)
    &&& crate::text::optional_text(a.trust_level) == crate::text::optional_text(b.trust_level)
    &&& crate::text::optional_text(a.auth_provider) == crate::text::optional_text(b.auth_provider)
    &&& crate::text::optional_text(a.kind) == crate::text::optional_text(b.kind)
    &&& crate::text::texts(a.roles@) == crate::text::texts(b.roles@)
    &&& crate::text::texts(a.groups@) == crate::text::texts(b.groups@)
    &&& crate::text::texts(a.scopes@) == crate::text::texts(b.scopes@)
    &&& a.attributes.model() == b.attributes.model()
}

/// Whether two identities are the same, or neither is there.
pub open spec fn same_optional_caller(
    a: Option<CallerIdentity>,
    b: Option<CallerIdentity>,
) -> bool {
    match (a, b) {
        (Some(a), Some(b)) => same_caller(a, b),
        (None, None) => true,
        _ => false,
    }
}

/// Whether a context is the one of a request to a backend.
pub open spec fn context_of(
    context: BackendInvocationContext,
    request: BackendRequest,
    backend_name: Seq<char>,
) -> bool {
    &&& context.request_id@ == request.request_id@
    &&& crate::text::optional_text(context.session_id) == crate::text::optional_text(
        request.session_id,
    )
    &&& context.backend_name@ == backend_name
    &&& same_optional_caller(context.identity, request.identity)
}

fn copy_identity(identity: &CallerIdentity) -> (copy: CallerIdentity)
    ensures
        same_caller(copy, *identity),
{
    CallerIdentity {
        subject_id: copy_text(&identity.subject_id),
        trust_level: copy_text(&identity.trust_level),
        auth_provider: copy_text(&identity.auth_provider),
        kind: copy_text(&identity.kind),
        roles: copy_texts(&identity.roles),
        groups: copy_texts(&identity.groups),
        scopes: copy_texts(&identity.scopes),
        attributes: identity.attributes.duplicate(),
    }
}

/// What a host is told about a request to a backend: among others, who makes it.
pub fn invocation_context(
    request: &BackendRequest,
    backend_name: &str,
) -> (context: BackendInvocationContext)
    ensures
        context_of(context, *request, backend_name@),
{
    let identity = match &request.identity {
        Some(identity) => Some(copy_identity(identity)),
        None => None,
    };
    BackendInvocationContext {
        request_id: request.request_id.clone(),
        session_id: copy_text(&request.session_id),
        backend_name: backend_name.to_owned(),
        identity,
    }
}

/// Whether a context tells of an identity, field by field.
pub open spec fn tells_of(context: ExprRequestContext, identity: CallerIdentity) -> bool {
    &&& crate::text::optional_text(context.principal_id) == crate::text::optional_text(
        identity.subject_id,
    )
    &&& crate::text::optional_text(context.trust_level) == crate::text::optional_text(
        identity.trust_level,
    )
    &&& crate::text::optional_text(context.auth_provider) == crate::text::optional_text(
        identity.auth_provider,
    )
    &&& crate::text::optional_text(context.transport) == crate::text::optional_text(identity.kind)
    &&& crate::text::texts(context.roles@) == crate::text::texts(identity.roles@)
    &&& crate::text::texts(context.groups@) == crate::text::texts(identity.groups@)
    &&& crate::text::texts(context.scopes@) == crate::text::texts(identity.scopes@)
    &&& context.attributes.model() == identity.attributes.model()
}

/// Whether a context tells of no one.
pub open spec fn tells_of_no_one(context: ExprRequestContext) -> bool {
    &&& context.principal_id is None
    &&& context.trust_level is None
    &&& context.auth_provider is None
    &&& context.transport is None
    &&& context.roles@.len() == 0
    &&& context.groups@.len() == 0
    &&& context.scopes@.len() == 0
    &&& context.attributes is Null
}

/// Makes what the templates of one call are evaluated against: the arguments, the
/// tool and who makes the call.
pub fn build_expr_context(
    arguments: &JsonValue,
    tool_name: &str,
    request: &BackendRequest,
) -> (context: ExprContext)
    ensures
        context.arguments.model() == arguments.model(),
        context.tool_name@ == tool_name@,
        crate::text::optional_text(context.context.session_id) == crate::text::optional_text(
            request.session_id,
        ),
        match request.identity {
            Some(identity) => tells_of(context.context, identity),
            None => tells_of_no_one(context.context),
        },
        context.steps is None,
        context.env@.len() == 0,
{
    let told = match &request.identity {
        Some(identity) => ExprRequestContext {
            session_id: copy_text(&request.session_id),
            principal_id: copy_text(&identity.subject_id),
            trust_level: copy_text(&identity.trust_level),
            auth_provider: copy_text(&identity.auth_provider),
            transport: copy_text(&identity.kind),
            roles: copy_texts(&identity.roles),
            groups: copy_texts(&identity.groups),
            scopes: copy_texts(&identity.scopes),
            attributes: identity.attributes.duplicate(),
        },
        None => ExprRequestContext {
            session_id: copy_text(&request.session_id),
            principal_id: None,
            trust_level: None,
            auth_provider: None,
            transport: None,
            roles: Vec::new(),
            groups: Vec::new(),
            scopes: Vec::new(),
            attributes: JsonValue::Null,
        },
    };
    ExprContext {
        arguments: arguments.duplicate(),
        tool_name: tool_name.to_owned(),
        context: told,
        steps: None,
        env: Vec::new(),
    }
}

/// Whether two lists hold the same texts, in order.
pub open spec fn same_list(a: Seq<String>, b: Seq<String>) -> bool {
    a.len() == b.len() && forall|i: int| 0 <= i < a.len() ==> (#[trigger] a[i])@ == b[i]@
}

/// Whether two optional texts are the same.
pub open spec fn same_option(a: Option<String>, b: Option<String>) -> bool {
    match (a, b) {
        (Some(a), Some(b)) => a@ == b@,
        (None, None) => true,
        _ => false,
    }
}

pub(crate) proof fn lemma_same_list(a: Seq<String>, b: Seq<String>)
    requires
        crate::text::texts(a) == crate::text::texts(b),
    ensures
        same_list(a, b),
{
    assert(crate::text::texts(a).len() == a.len());
    assert(crate::text::texts(b).len() == b.len());
    assert forall|i: int| 0 <= i < a.len() implies (#[trigger] a[i])@ == b[i]@ by {
        assert(crate::text::texts(a)[i] == a[i]@);
        assert(crate::text::texts(b)[i] == b[i]@);
    }
}

/// What templates read is what the call and its request say: the arguments and the tool as
/// given, the session, and of the caller the subject, the trust level, the provider, the kind as
/// transport, every role, group and scope in order, and the attributes; of a request without a
/// caller none of these. There are no steps and no environment.
pub proof fn law_templates_read_the_request(
    arguments: &JsonValue,
    tool_name: &str,
    request: &BackendRequest,
    context: ExprContext,
)
    requires
        call_ensures(build_expr_context, (arguments, tool_name, request), context),
    ensures
        context.arguments.model() == arguments.model(),
        context.tool_name@ == tool_name@,
        same_option(context.context.session_id, request.session_id),
        request.identity matches Some(caller) ==> {
            &&& same_option(context.context.principal_id, caller.subject_id)
            &&& same_option(context.context.trust_level, caller.trust_level)
            &&& same_option(context.context.auth_provider, caller.auth_provider)
            &&& same_option(context.context.transport, caller.kind)
            &&& same_list(context.context.roles@, caller.roles@)
            &&& same_list(context.context.groups@, caller.groups@)
            &&& same_list(context.context.scopes@, caller.scopes@)
            &&& context.context.attributes.model() == caller.attributes.model()
        },
        request.identity is None ==> {
            &&& context.context.principal_id is None
            &&& context.context.trust_level is None
            &&& context.context.auth_provider is None
            &&& context.context.transport is None
            &&& context.context.roles@.len() == 0
            &&& context.context.groups@.len() == 0
            &&& context.context.scopes@.len() == 0
            &&& context.context.attributes is Null
        },
        context.steps is None,
        context.env@.len() == 0,
{
    if request.identity is Some {
        let caller = request.identity->Some_0;
        lemma_same_list(context.context.roles@, caller.roles@);
        lemma_same_list(context.context.groups@, caller.groups@);
        lemma_same_list(context.context.scopes@, caller.scopes@);
    }
}

/// What a host is told about a call: the request and the session that it belongs to, the
/// backend, and the caller in every respect.
pub proof fn law_host_is_told_the_caller(
    request: &BackendRequest,
    backend_name: &str,
    context: BackendInvocationContext,
)
    requires
        call_ensures(invocation_context, (request, backend_name), context),
    ensures
        context.request_id@ == request.request_id@,
        same_option(context.session_id, request.session_id),
        context.backend_name@ == backend_name@,
        context.identity is Some <==> request.identity is Some,
        request.identity matches Some(caller) ==> {
            let told = context.identity->Some_0;
            &&& same_option(told.subject_id, caller.subject_id)
            &&& same_option(told.trust_level, caller.trust_level)
            &&& same_option(told.auth_provider, caller.auth_provider)
            &&& same_option(told.kind, caller.kind)
            &&& same_list(told.roles@, caller.roles@)
            &&& same_list(told.groups@, caller.groups@)
            &&& same_list(told.scopes@, caller.scopes@)
            &&& told.attributes.model() == caller.attributes.model()
        },
{
    if request.identity is Some {
        let (told, caller) = (context.identity->Some_0, request.identity->Some_0);
        lemma_same_list(told.roles@, caller.roles@);
        lemma_same_list(told.groups@, caller.groups@);
        lemma_same_list(told.scopes@, caller.scopes@);
    }
}

} // verus!
