//! Per-profile state of a network backend, and what a call resolves to.
//!
//! [`NetworkProfileRuntime`] holds the operator's URL and headers, compiled to
//! templates of some type `T`. For each call the templates are evaluated, and
//! their values decide which client the call uses: the digest under which it is
//! cached, and the credentials whose revocation drops it. Compiling and
//! evaluating templates, and resolving credentials, is the caller's work; here is
//! what goes in and what becomes of the results.

pub use crate::context::{
    build_expr_context, invocation_context, BackendInvocationContext, BackendRequest,
    CallerIdentity, ExprContext, ExprRequestContext,
};
pub use crate::credentials::{
    credential_failure_message, credential_snapshot, credential_uris, credential_value,
    credential_values, CredentialFailure,
};

use crate::bundle::digest_of_bundle;
use crate::client_registry::{ClientRegistry, CredDigest, SharedClient};
use crate::credentials::{cred_keys_of, marker_in_any};
use crate::headers::message_text;
use crate::json::JsonValue;
use crate::text::{same_ignoring_case, same_text};
use crate::types::{HeaderTable, HttpRequestProfile};
use vstd::prelude::*;

verus! {

/// What a call resolves to, up to the client itself.
pub struct ResolvedBundle {
    /// The URL, with arguments and credentials filled in.
    pub resolved_url: String,
    /// The headers, with arguments and credentials filled in.
    pub resolved_headers: HeaderTable,
    /// The digest under which the client is cached.
    pub digest: CredDigest,
    /// The credentials whose revocation drops the client.
    pub cred_keys: Vec<(String, String)>,
}

/// What a call resolves to.
pub struct ResolvedCall {
    /// The client that carries the call.
    pub client: SharedClient,
    /// The URL, with arguments and credentials filled in.
    pub resolved_url: String,
    /// The headers, with arguments and credentials filled in.
    pub resolved_headers: HeaderTable,
}

impl ResolvedBundle {
    /// The resolved call that uses `client`.
    pub fn with_client(self, client: SharedClient) -> (call: ResolvedCall)
        ensures
            call.client == client,
            call.resolved_url == self.resolved_url,
            call.resolved_headers == self.resolved_headers,
    {
        ResolvedCall {
            client,
            resolved_url: self.resolved_url,
            resolved_headers: self.resolved_headers,
        }
    }
}

/// The value of a header template for one call.
pub enum HeaderOutcome {
    /// The value.
    Value(String),
    /// The template could not be evaluated, with the reason.
    Failed(String),
    /// The value may not be sent, with the reason.
    Refused(String),
}

/// Whether all outcomes are values.
pub open spec fn all_values(outcomes: Seq<HeaderOutcome>) -> bool {
    forall|i: int| 0 <= i < outcomes.len() ==> (#[trigger] outcomes[i]) is Value
}

/// The values of the outcomes with the names of the headers.
pub open spec fn named_values(
    headers: Seq<(Seq<char>, Seq<char>)>,
    outcomes: Seq<HeaderOutcome>,
) -> Seq<(Seq<char>, Seq<char>)> {
    Seq::new(headers.len(), |i: int| (headers[i].0, outcomes[i]->Value_0@))
}

/// The message for the outcome of a header that is not a value.
pub open spec fn outcome_message(name: Seq<char>, outcome: HeaderOutcome) -> Seq<char> {
    match outcome {
        HeaderOutcome::Value(_) => Seq::empty(),
        HeaderOutcome::Failed(reason) => "evaluating header '"@ + name + "' expression: "@
            + reason@,
        HeaderOutcome::Refused(reason) => crate::headers::message_about(
            "header"@,
            name,
            reason@,
        ),
    }
}

/// The place of the first outcome that is not a value, or the number of outcomes.
pub open spec fn first_bad(outcomes: Seq<HeaderOutcome>) -> int
    decreases outcomes.len(),
{
    if outcomes.len() == 0 || !(outcomes.first() is Value) {
        0
    } else {
        1 + first_bad(outcomes.drop_first())
    }
}

/// What [`first_bad`] means.
pub proof fn lemma_first_bad(outcomes: Seq<HeaderOutcome>)
    ensures
        0 <= first_bad(outcomes) <= outcomes.len(),
        forall|i: int| 0 <= i < first_bad(outcomes) ==> (#[trigger] outcomes[i]) is Value,
        first_bad(outcomes) < outcomes.len() ==> !(outcomes[first_bad(outcomes)] is Value),
        first_bad(outcomes) == outcomes.len() <==> all_values(outcomes),
    decreases outcomes.len(),
{
    if outcomes.len() > 0 && outcomes.first() is Value {
        let rest = outcomes.drop_first();
        lemma_first_bad(rest);
        assert forall|i: int| 0 <= i < first_bad(outcomes) implies (
        #[trigger] outcomes[i]) is Value by {
            if i > 0 {
                assert(outcomes[i] == rest[i - 1]);
            }
        }
        if first_bad(outcomes) < outcomes.len() {
            assert(outcomes[first_bad(outcomes)] == rest[first_bad(rest)]);
        }
    }
}

/// The values that the templates of a call have, or the message about the first
/// that has none: the URL comes first, then the headers in order.
pub open spec fn evaluated(
    url: Result<Seq<char>, Seq<char>>,
    headers: Seq<(Seq<char>, Seq<char>)>,
    outcomes: Seq<HeaderOutcome>,
) -> Result<(Seq<char>, Seq<(Seq<char>, Seq<char>)>), Seq<char>> {
    match url {
        Err(reason) => Err("evaluating URL expression: "@ + reason),
        Ok(url) => {
            let bad = first_bad(outcomes);
            if bad < outcomes.len() {
                Err(outcome_message(headers[bad].0, outcomes[bad]))
            } else {
                Ok((url, named_values(headers, outcomes)))
            }
        },
    }
}

/// What the values of a call's templates come to: a bundle of those values, with
/// the credential keys of what the operator wrote, or the message about the first
/// template that has no value.
pub open spec fn bundled(
    bundle: Result<ResolvedBundle, String>,
    url: Result<Seq<char>, Seq<char>>,
    outcomes: Seq<HeaderOutcome>,
    written_url: Seq<char>,
    written_headers: Seq<(Seq<char>, Seq<char>)>,
) -> bool {
    match evaluated(url, written_headers, outcomes) {
        Err(message) => bundle matches Err(text) && text@ == message,
        Ok(values) => {
            &&& bundle matches Ok(bundle)
            &&& bundle.resolved_url@ == values.0
            &&& bundle.resolved_headers@ == values.1
            &&& bundle.digest@ == crate::bundle::bundle_digest(values.0, values.1)
            &&& crate::credentials::are_cred_keys(
                crate::types::pairs_model(bundle.cred_keys@),
                written_url,
                written_headers,
            )
        },
    }
}

/// The state of one profile, shared by all its calls. The URL and the headers
/// are kept as the operator wrote them and as compiled templates of type `T`.
pub struct NetworkProfileRuntime<T> {
    profile: HttpRequestProfile,
    raw_url: String,
    raw_headers: HeaderTable,
    has_cred_refs: bool,
    compiled_url: T,
    compiled_headers: Vec<T>,
    secret_refs: Vec<String>,
}

/// The place of the first template that did not compile, or the number of
/// templates.
pub open spec fn first_uncompiled<T>(compiled: Seq<Result<T, String>>) -> int
    decreases compiled.len(),
{
    if compiled.len() == 0 || compiled.first() is Err {
        0
    } else {
        1 + first_uncompiled(compiled.drop_first())
    }
}

/// The message about the first template that did not compile: the URL comes
/// first, then the headers in order.
pub open spec fn compile_message<T>(
    url: Result<T, String>,
    headers: Seq<(Seq<char>, Seq<char>)>,
    compiled: Seq<Result<T, String>>,
) -> Option<Seq<char>> {
    match url {
        Err(reason) => Some("url expression: "@ + reason@),
        Ok(_) => {
            let bad = first_uncompiled(compiled);
            if bad < compiled.len() {
                Some(
                    "header '"@ + headers[bad].0 + "' expression: "@ + compiled[bad]->Err_0@,
                )
            } else {
                None
            }
        },
    }
}

fn expression_message(label: &str, name: &str, reason: &str) -> (message: String)
    ensures
        message@ == label@ + name@ + "' expression: "@ + reason@,
{
    let mut message = label.to_owned();
    message.append(name);
    message.append("' expression: ");
    message.append(reason);
    message
}

/// The clients of a profile after a credential was revoked: those that do not hold
/// it.
pub open spec fn after_revocation(
    clients: crate::client_registry::Clients,
    plugin_id: Seq<char>,
    target: Seq<char>,
) -> crate::client_registry::Clients {
    crate::client_registry::without(
        clients,
        crate::client_registry::holds_credential(plugin_id, target),
    )
}

/// The clients of a profile after a secret was rotated: none where the profile
/// derives from the secret, else all of them.
pub open spec fn after_rotation(
    clients: crate::client_registry::Clients,
    secrets: Seq<Seq<char>>,
    secret_ref: Seq<char>,
) -> crate::client_registry::Clients {
    if secrets.contains(secret_ref) {
        Map::empty()
    } else {
        clients
    }
}

impl<T> NetworkProfileRuntime<T> {
    #[verifier::type_invariant]
    spec fn one_template_per_header(self) -> bool {
        self.compiled_headers@.len() == self.raw_headers@.len()
    }

    /// The knobs of the profile.
    pub closed spec fn knobs(&self) -> HttpRequestProfile {
        self.profile
    }

    /// The URL as the operator wrote it.
    pub closed spec fn url_as_written(&self) -> Seq<char> {
        self.raw_url@
    }

    /// The headers as the operator wrote them.
    pub closed spec fn headers_as_written(&self) -> Seq<(Seq<char>, Seq<char>)> {
        self.raw_headers@
    }

    /// Whether there is a credential marker in what the operator wrote.
    pub closed spec fn marked(&self) -> bool {
        self.has_cred_refs
    }

    /// The template of the URL.
    pub closed spec fn url_template_as_compiled(&self) -> T {
        self.compiled_url
    }

    /// The templates of the headers, in the order of the header names.
    pub closed spec fn header_templates_as_compiled(&self) -> Seq<T> {
        self.compiled_headers@
    }

    /// The secrets that the profile derives from.
    pub closed spec fn secrets(&self) -> Seq<Seq<char>> {
        crate::text::texts(self.secret_refs@)
    }

    /// Makes the state of a profile from what the operator wrote, and from what
    /// came of compiling it: the URL, and the header values in the order of the
    /// header names. `secret_refs` are the secrets that the profile derives from.
    pub fn register(
        raw_url: String,
        raw_headers: HeaderTable,
        profile: HttpRequestProfile,
        compiled_url: Result<T, String>,
        compiled_headers: Vec<Result<T, String>>,
        secret_refs: Vec<String>,
    ) -> (runtime: Result<Self, String>)
        requires
            compiled_headers@.len() == raw_headers@.len(),
        ensures
            match compile_message(compiled_url, raw_headers@, compiled_headers@) {
                Some(message) => runtime matches Err(text) && text@ == message,
                None => {
                    &&& runtime matches Ok(runtime)
                    &&& runtime.knobs() == profile
                    &&& runtime.url_as_written() == raw_url@
                    &&& runtime.headers_as_written() == raw_headers@
                    &&& runtime.marked() == crate::credentials::any_marker(raw_url@, raw_headers@)
                    &&& compiled_url == Ok::<T, String>(runtime.url_template_as_compiled())
                    &&& runtime.header_templates_as_compiled().len() == raw_headers@.len()
                    &&& forall|i: int|
                        0 <= i < raw_headers@.len() ==> #[trigger] compiled_headers@[i] == Ok::<
                            T,
                            String,
                        >(runtime.header_templates_as_compiled()[i])
                    &&& runtime.secrets() == crate::text::texts(secret_refs@)
                },
            },
    {
        let has_cred_refs = marker_in_any(raw_url.as_str(), &raw_headers);
        let url_template = match compiled_url {
            Ok(template) => template,
            Err(reason) => {
                let mut message = "url expression: ".to_owned();
                message.append(reason.as_str());
                return Err(message);
            },
        };
        let entries = raw_headers.entries();
        let ghost given = compiled_headers@;
        let mut rest = compiled_headers;
        let mut templates: Vec<T> = Vec::new();
        let mut i: usize = 0;
        assert(given.skip(0) =~= given);
        while i < entries.len()
            invariant
                i <= entries@.len(),
                given == compiled_headers@,
                compiled_url == Ok::<T, String>(url_template),
                given.len() == entries@.len(),
                crate::types::pairs_model(entries@) == raw_headers@,
                rest@ == given.skip(i as int),
                first_uncompiled(given) == i + first_uncompiled(given.skip(i as int)),
                templates@.len() == i,
                forall|j: int|
                    0 <= j < i ==> #[trigger] given[j] == Ok::<T, String>(templates@[j]),
            decreases entries@.len() - i,
        {
            let compiled = rest.remove(0);
            assert(compiled == given[i as int]);
            assert(given.skip(i as int).first() == compiled);
            assert(given.skip(i as int).drop_first() =~= given.skip(i + 1));
            assert(rest@ =~= given.skip(i + 1));
            match compiled {
                Ok(template) => {
                    templates.push(template);
                },
                Err(reason) => {
                    return Err(
                        expression_message("header '", entries[i].0.as_str(), reason.as_str()),
                    );
                },
            }
            i = i + 1;
        }
        Ok(
            NetworkProfileRuntime {
                profile,
                raw_url,
                raw_headers,
                has_cred_refs,
                compiled_url: url_template,
                compiled_headers: templates,
                secret_refs,
            },
        )
    }

    /// The knobs of the profile.
    pub fn profile(&self) -> (profile: &HttpRequestProfile)
        ensures
            *profile == self.knobs(),
    {
        &self.profile
    }

    /// Whether the URL or a header holds a credential reference.
    pub fn has_cred_refs(&self) -> (yes: bool)
        ensures
            yes == self.marked(),
    {
        self.has_cred_refs
    }

    /// The URL as the operator wrote it.
    pub fn raw_url(&self) -> (url: &str)
        ensures
            url@ == self.url_as_written(),
    {
        self.raw_url.as_str()
    }

    /// The template of the URL.
    pub fn url_template(&self) -> (template: &T)
        ensures
            *template == self.url_template_as_compiled(),
    {
        &self.compiled_url
    }

    /// The templates of the headers, in the order of the header names.
    pub fn header_templates(&self) -> (templates: &Vec<T>)
        ensures
            templates@ == self.header_templates_as_compiled(),
            templates@.len() == self.headers_as_written().len(),
    {
        proof {
            use_type_invariant(self);
        }
        &self.compiled_headers
    }

    /// The names of the headers, each with what the operator wrote for it.
    pub fn raw_headers(&self) -> (headers: &HeaderTable)
        ensures
            headers@ == self.headers_as_written(),
    {
        &self.raw_headers
    }

    /// Whether the operator configured the header `name`, in any case.
    pub fn operator_has_header(&self, name: &str) -> (yes: bool)
        ensures
            yes == exists|i: int|
                0 <= i < self.headers_as_written().len() && crate::text::eq_ignore_case(
                    (#[trigger] self.headers_as_written()[i]).0,
                    name@,
                ),
    {
        let entries = self.raw_headers.entries();
        let ghost all = self.headers_as_written();
        let mut i: usize = 0;
        while i < entries.len()
            invariant
                i <= entries@.len(),
                all == self.headers_as_written(),
                all == crate::types::pairs_model(entries@),
                forall|j: int|
                    0 <= j < i ==> !crate::text::eq_ignore_case((#[trigger] all[j]).0, name@),
            decreases entries@.len() - i,
        {
            if same_ignoring_case(entries[i].0.as_str(), name) {
                assert(crate::text::eq_ignore_case(all[i as int].0, name@));
                return true;
            }
            i = i + 1;
        }
        false
    }

    /// Whether the profile derives from the secret `secret_ref`, so that its
    /// clients are dropped when the secret rotates.
    pub fn derives_from_secret(&self, secret_ref: &str) -> (yes: bool)
        ensures
            yes == self.secrets().contains(secret_ref@),
    {
        let ghost all = self.secrets();
        let mut i: usize = 0;
        while i < self.secret_refs.len()
            invariant
                i <= self.secret_refs@.len(),
                all == crate::text::texts(self.secret_refs@),
                forall|j: int| 0 <= j < i ==> #[trigger] all[j] != secret_ref@,
            decreases self.secret_refs@.len() - i,
        {
            if same_text(self.secret_refs[i].as_str(), secret_ref) {
                assert(all[i as int] == secret_ref@);
                return true;
            }
            assert(all[i as int] != secret_ref@);
            i = i + 1;
        }
        false
    }

    /// Drops the clients of the profile whose credential was revoked, and returns how
    /// many there were. `registry` holds the clients of this profile alone.
    pub fn credential_revoked(
        &self,
        registry: &mut ClientRegistry,
        plugin_id: &str,
        target: &str,
    ) -> (count: usize)
        requires
            old(registry).well_formed(),
        ensures
            final(registry).well_formed(),
            final(registry).config() == old(registry).config(),
            final(registry).clients() == after_revocation(
                old(registry).clients(),
                plugin_id@,
                target@,
            ),
            count == old(registry).clients().len() - final(registry).clients().len(),
    {
        registry.evict_for(plugin_id, target)
    }

    /// Drops all clients of the profile where it derives from the secret that was
    /// rotated, and returns how many there were. `registry` holds the clients of this
    /// profile alone.
    pub fn secret_rotated(&self, registry: &mut ClientRegistry, secret_ref: &str) -> (count: usize)
        requires
            old(registry).well_formed(),
        ensures
            final(registry).well_formed(),
            final(registry).config() == old(registry).config(),
            final(registry).clients() == after_rotation(
                old(registry).clients(),
                self.secrets(),
                secret_ref@,
            ),
            count == old(registry).clients().len() - final(registry).clients().len(),
    {
        if self.derives_from_secret(secret_ref) {
            registry.evict_for_secret(secret_ref)
        } else {
            0
        }
    }

    /// What a call without arguments or credentials resolves to: the base URL of
    /// the profile and no headers.
    pub fn resolve_static_client(&self) -> (bundle: ResolvedBundle)
        ensures
            bundle.resolved_url@ == self.knobs().url@,
            bundle.resolved_headers@ == Seq::<(Seq<char>, Seq<char>)>::empty(),
            bundle.digest@ == crate::bundle::bundle_digest(self.knobs().url@, Seq::empty()),
            crate::types::pairs_model(bundle.cred_keys@) == Seq::<
                (Seq<char>, Seq<char>),
            >::empty(),
    {
        let resolved_headers = HeaderTable::new();
        let digest = digest_of_bundle(self.profile.url.as_str(), &resolved_headers);
        let cred_keys: Vec<(String, String)> = Vec::new();
        assert(crate::types::pairs_model(cred_keys@) =~= Seq::empty());
        ResolvedBundle {
            resolved_url: self.profile.url.clone(),
            resolved_headers,
            digest,
            cred_keys,
        }
    }

    /// What a call resolves to, given the value of the URL template and those of
    /// the header templates, in the order of the header names.
    ///
    /// The digest covers the values. The credential keys come from what the
    /// operator wrote, so they are the same for every call.
    pub fn resolve_bundle(
        &self,
        url: Result<String, String>,
        outcomes: Vec<HeaderOutcome>,
    ) -> (bundle: Result<ResolvedBundle, String>)
        requires
            outcomes@.len() == self.headers_as_written().len(),
        ensures
            bundled(
                bundle,
                crate::exec::text_outcome(url),
                outcomes@,
                self.url_as_written(),
                self.headers_as_written(),
            ),
    {
        let resolved_url = match url {
            Ok(url) => url,
            Err(reason) => {
                let mut message = "evaluating URL expression: ".to_owned();
                message.append(reason.as_str());
                return Err(message);
            },
        };
        let entries = self.raw_headers.entries();
        let ghost all = self.headers_as_written();
        let ghost bad = first_bad(outcomes@);
        proof {
            lemma_first_bad(outcomes@);
        }
        let mut values: Vec<String> = Vec::new();
        let mut i: usize = 0;
        while i < entries.len()
            invariant
                i <= entries@.len(),
                all == self.headers_as_written(),
                all == crate::types::pairs_model(entries@),
                outcomes@.len() == all.len(),
                bad == first_bad(outcomes@),
                i <= bad <= outcomes@.len(),
                bad < outcomes@.len() ==> !(outcomes@[bad] is Value),
                forall|j: int| 0 <= j < bad ==> (#[trigger] outcomes@[j]) is Value,
                values@.len() == i,
                forall|j: int|
                    0 <= j < i ==> (#[trigger] values@[j])@ == outcomes@[j]->Value_0@,
                evaluated(
                    Ok::<Seq<char>, Seq<char>>(resolved_url@),
                    all,
                    outcomes@,
                ) == (if bad < outcomes@.len() {
                    Err::<(Seq<char>, Seq<(Seq<char>, Seq<char>)>), Seq<char>>(
                        outcome_message(all[bad].0, outcomes@[bad]),
                    )
                } else {
                    Ok((resolved_url@, named_values(all, outcomes@)))
                }),
                crate::exec::text_outcome(url) == Ok::<Seq<char>, Seq<char>>(resolved_url@),
            decreases entries@.len() - i,
        {
            let name = entries[i].0.as_str();
            assert(name@ == all[i as int].0);
            match &outcomes[i] {
                HeaderOutcome::Value(value) => {
                    values.push(value.clone());
                },
                HeaderOutcome::Failed(reason) => {
                    assert(bad == i);
                    return Err(
                        expression_message("evaluating header '", name, reason.as_str()),
                    );
                },
                HeaderOutcome::Refused(reason) => {
                    assert(bad == i);
                    return Err(message_text("header", name, reason.as_str()));
                },
            }
            i = i + 1;
        }
        let resolved_headers = self.raw_headers.with_values(values);
        assert(resolved_headers@ =~= named_values(all, outcomes@));
        let digest = digest_of_bundle(resolved_url.as_str(), &resolved_headers);
        let cred_keys = cred_keys_of(self.raw_url.as_str(), &self.raw_headers);
        Ok(ResolvedBundle { resolved_url, resolved_headers, digest, cred_keys })
    }
}

/// The message for a client that could not be built.
pub fn client_failure_message(reason: &str) -> (message: String)
    ensures
        message@ == "building HTTP client: "@ + reason@,
{
    let mut message = "building HTTP client: ".to_owned();
    message.append(reason);
    message
}

/// What happened while a call is resolved.
pub enum ResolveEvent {
    /// The call came in. The URL template and the header templates refer to these
    /// credentials.
    Called {
        /// The references, template by template.
        template_refs: Vec<Vec<String>>,
    },
    /// The snapshot was filled in with the credentials of the caller, or could not
    /// be.
    CredentialsResolved(Result<JsonValue, CredentialFailure>),
    /// The templates were evaluated.
    Evaluated {
        /// The value of the URL template, or why it has none.
        url: Result<String, String>,
        /// The values of the header templates, in the order of the header names.
        outcomes: Vec<HeaderOutcome>,
    },
    /// A client was found or built for the bundle, or could not be.
    ClientObtained {
        /// The bundle.
        bundle: ResolvedBundle,
        /// The client, or why there is none.
        client: Result<SharedClient, String>,
    },
}

/// What to do next to resolve a call.
pub enum ResolveAction {
    /// Have the host fill in a snapshot with the credentials of the caller.
    ResolveCredentials {
        /// What the host is told about the call.
        context: BackendInvocationContext,
        /// The snapshot.
        snapshot: JsonValue,
    },
    /// Evaluate the templates with these credentials.
    Evaluate(Vec<(String, String)>),
    /// Find or build a client for this bundle.
    ObtainClient(ResolvedBundle),
    /// The call is resolved.
    Done(ResolvedCall),
    /// The call cannot be resolved, with this message.
    Fail(String),
}

/// Whether `action` is what comes after `event`. Credentials are resolved first,
/// and only where a template refers to one; then the templates are evaluated; then
/// a client is obtained. The first thing that fails ends the call.
pub open spec fn resolves(
    event: ResolveEvent,
    action: ResolveAction,
    request: BackendRequest,
    backend_name: Seq<char>,
    written_url: Seq<char>,
    written_headers: Seq<(Seq<char>, Seq<char>)>,
) -> bool {
    match event {
        ResolveEvent::Called { template_refs } => {
            let refs = crate::credentials::flattened(template_refs@);
            if refs.len() == 0 {
                action matches ResolveAction::Evaluate(credentials) && credentials@.len() == 0
            } else {
                &&& action matches ResolveAction::ResolveCredentials { context, snapshot }
                &&& crate::context::context_of(context, request, backend_name)
                &&& exists|uris: Seq<Seq<char>>|
                    {
                        &&& snapshot.model() == #[trigger] crate::credentials::snapshot_of(uris)
                        &&& crate::sort::strictly_in_order(uris, crate::sort::by_text())
                        &&& forall|uri: Seq<char>| #[trigger]
                            uris.contains(uri) <==> refs.contains(uri)
                    }
            }
        },
        ResolveEvent::CredentialsResolved(resolved) => match resolved {
            Ok(snapshot) => {
                &&& action matches ResolveAction::Evaluate(credentials)
                &&& crate::types::pairs_model(credentials@)
                    == crate::credentials::resolved_credentials(snapshot.model())
            },
            Err(failure) => action matches ResolveAction::Fail(message) && message@
                == crate::credentials::credential_failure_text(failure),
        },
        ResolveEvent::Evaluated { url, outcomes } => match action {
            ResolveAction::ObtainClient(bundle) => bundled(
                Ok(bundle),
                crate::exec::text_outcome(url),
                outcomes@,
                written_url,
                written_headers,
            ),
            ResolveAction::Fail(message) => bundled(
                Err(message),
                crate::exec::text_outcome(url),
                outcomes@,
                written_url,
                written_headers,
            ),
            _ => false,
        },
        ResolveEvent::ClientObtained { bundle, client } => match client {
            Ok(client) => {
                &&& action matches ResolveAction::Done(call)
                &&& call.client == client
                &&& call.resolved_url == bundle.resolved_url
                &&& call.resolved_headers == bundle.resolved_headers
            },
            Err(reason) => action matches ResolveAction::Fail(message) && message@
                == "building HTTP client: "@ + reason@,
        },
    }
}

impl<T> NetworkProfileRuntime<T> {
    /// Decides how the resolution of a call goes on after an event.
    pub fn resolve_client(
        &self,
        request: &BackendRequest,
        backend_name: &str,
        event: ResolveEvent,
    ) -> (action: ResolveAction)
        requires
            event matches ResolveEvent::Evaluated { outcomes, .. } ==> outcomes@.len()
                == self.headers_as_written().len(),
        ensures
            resolves(
                event,
                action,
                *request,
                backend_name@,
                self.url_as_written(),
                self.headers_as_written(),
            ),
    {
        match event {
            ResolveEvent::Called { template_refs } => {
                let uris = credential_uris(&template_refs);
                let ghost given = crate::credentials::flattened(template_refs@);
                let ghost kept = crate::text::texts(uris@);
                if uris.len() == 0 {
                    proof {
                        if given.len() > 0 {
                            assert(given.contains(given[0]));
                            assert(kept.contains(given[0]));
                        }
                    }
                    ResolveAction::Evaluate(Vec::new())
                } else {
                    proof {
                        assert(kept.contains(kept[0]));
                        assert(given.contains(kept[0]));
                    }
                    let snapshot = credential_snapshot(&uris);
                    assert(snapshot.model() == crate::credentials::snapshot_of(kept));
                    let context = invocation_context(request, backend_name);
                    ResolveAction::ResolveCredentials { context, snapshot }
                }
            },
            ResolveEvent::CredentialsResolved(resolved) => match resolved {
                Ok(snapshot) => ResolveAction::Evaluate(credential_values(&snapshot)),
                Err(failure) => ResolveAction::Fail(credential_failure_message(failure)),
            },
            ResolveEvent::Evaluated { url, outcomes } => match self.resolve_bundle(url, outcomes) {
                Ok(bundle) => ResolveAction::ObtainClient(bundle),
                Err(message) => ResolveAction::Fail(message),
            },
            ResolveEvent::ClientObtained { bundle, client } => match client {
                Ok(client) => ResolveAction::Done(bundle.with_client(client)),
                Err(reason) => ResolveAction::Fail(client_failure_message(reason.as_str())),
            },
        }
    }
}

/// A call without headers has the digest of the base URL alone, so it shares its
/// client with calls that have no arguments or credentials.
pub proof fn law_static_and_headerless_calls_share_a_client(
    url: Seq<char>,
    headers: Seq<(Seq<char>, Seq<char>)>,
    outcomes: Seq<HeaderOutcome>,
)
    requires
        headers.len() == 0,
        outcomes.len() == 0,
    ensures
        evaluated(Ok(url), headers, outcomes) matches Ok(values) && crate::bundle::bundle_digest(
            values.0,
            values.1,
        ) == crate::bundle::bundle_digest(url, Seq::empty()),
{
    lemma_first_bad(outcomes);
    assert(named_values(headers, outcomes) =~= Seq::empty());
}

/// A rotated secret drops every client of a profile that derives from it, and none of
/// a profile that does not. A revoked credential drops exactly the clients that are cached
/// under it. A client that stays is as it was.
pub proof fn law_notices_drop_exactly_their_clients(
    clients: crate::client_registry::Clients,
    secrets: Seq<Seq<char>>,
    secret_ref: Seq<char>,
    plugin_id: Seq<char>,
    target: Seq<char>,
    digest: Seq<u8>,
)
    ensures
        ({
            let rotated = after_rotation(clients, secrets, secret_ref);
            &&& rotated.contains_key(digest) <==> clients.contains_key(digest)
                && !secrets.contains(secret_ref)
            &&& rotated.contains_key(digest) ==> rotated[digest] == clients[digest]
        }),
        ({
            let rest = after_revocation(clients, plugin_id, target);
            &&& rest.contains_key(digest) <==> clients.contains_key(digest)
                && !clients[digest].cred_keys.contains((plugin_id, target))
            &&& rest.contains_key(digest) ==> rest[digest] == clients[digest]
        }),
{
    crate::client_registry::law_revoked_credential_is_gone(clients, plugin_id, target, digest);
}

/// The credentials that a host is asked for depend on the references of the templates
/// alone, each counted once, whatever their order: two calls with the same references
/// ask with the same snapshot, or ask for nothing.
pub proof fn law_same_references_same_snapshot(
    refs_a: Vec<Vec<String>>,
    refs_b: Vec<Vec<String>>,
    action_a: ResolveAction,
    action_b: ResolveAction,
    request_a: BackendRequest,
    request_b: BackendRequest,
    backend_name: Seq<char>,
    written_url: Seq<char>,
    written_headers: Seq<(Seq<char>, Seq<char>)>,
)
    requires
        resolves(
            ResolveEvent::Called { template_refs: refs_a },
            action_a,
            request_a,
            backend_name,
            written_url,
            written_headers,
        ),
        resolves(
            ResolveEvent::Called { template_refs: refs_b },
            action_b,
            request_b,
            backend_name,
            written_url,
            written_headers,
        ),
        forall|uri: Seq<char>| #[trigger]
            crate::credentials::flattened(refs_a@).contains(uri)
                <==> crate::credentials::flattened(refs_b@).contains(uri),
    ensures
        match (action_a, action_b) {
            (
                ResolveAction::ResolveCredentials { snapshot: a, .. },
                ResolveAction::ResolveCredentials { snapshot: b, .. },
            ) => a.model() == b.model(),
            (ResolveAction::Evaluate(a), ResolveAction::Evaluate(b)) => a@.len() == 0 && b@.len()
                == 0,
            _ => false,
        },
{
    let a = crate::credentials::flattened(refs_a@);
    let b = crate::credentials::flattened(refs_b@);
    if a.len() > 0 {
        assert(a.contains(a[0]));
        assert(b.contains(a[0]));
    }
    if b.len() > 0 {
        assert(b.contains(b[0]));
        assert(a.contains(b[0]));
    }
    if a.len() > 0 {
        let uris_a = choose|uris: Seq<Seq<char>>|
            {
                &&& action_a->snapshot.model() == #[trigger] crate::credentials::snapshot_of(uris)
                &&& crate::sort::strictly_in_order(uris, crate::sort::by_text())
                &&& forall|uri: Seq<char>| #[trigger] uris.contains(uri) <==> a.contains(uri)
            };
        let uris_b = choose|uris: Seq<Seq<char>>|
            {
                &&& action_b->snapshot.model() == #[trigger] crate::credentials::snapshot_of(uris)
                &&& crate::sort::strictly_in_order(uris, crate::sort::by_text())
                &&& forall|uri: Seq<char>| #[trigger] uris.contains(uri) <==> b.contains(uri)
            };
        assert forall|uri: Seq<char>| #[trigger] uris_a.contains(uri) <==> uris_b.contains(uri) by {
            assert(a.contains(uri) <==> b.contains(uri));
        }
        crate::sort::lemma_by_text_linear();
        crate::sort::law_strict_order_unique(uris_a, uris_b, crate::sort::by_text());
    }
}

/// One step of the resolution of a call: what happened, and what was done next.
pub ghost struct ResolveStep {
    /// What happened.
    pub event: ResolveEvent,
    /// What was done next.
    pub action: ResolveAction,
}

/// Whether `event` tells what came of `action`. Nothing comes of an action that ends
/// the call.
pub open spec fn answers(action: ResolveAction, event: ResolveEvent) -> bool {
    match action {
        ResolveAction::ResolveCredentials { .. } => event is CredentialsResolved,
        ResolveAction::Evaluate(_) => event is Evaluated,
        ResolveAction::ObtainClient(bundle) => event matches ResolveEvent::ClientObtained {
            bundle: obtained,
            ..
        } && obtained == bundle,
        ResolveAction::Done(_) => false,
        ResolveAction::Fail(_) => false,
    }
}

/// Whether the steps are those of one call, from its arrival on.
pub open spec fn is_resolution(
    steps: Seq<ResolveStep>,
    request: BackendRequest,
    backend_name: Seq<char>,
    written_url: Seq<char>,
    written_headers: Seq<(Seq<char>, Seq<char>)>,
) -> bool {
    &&& steps.len() > 0
    &&& steps[0].event is Called
    &&& forall|i: int|
        0 <= i < steps.len() ==> resolves(
            (#[trigger] steps[i]).event,
            steps[i].action,
            request,
            backend_name,
            written_url,
            written_headers,
        )
    &&& forall|i: int|
        0 < i < steps.len() ==> answers(steps[i - 1].action, (#[trigger] steps[i]).event)
}

/// While a call is resolved its host is asked for credentials once, as the first step,
/// where a template refers to one, and else not at all. It is told who makes the call.
pub proof fn law_host_is_asked_once(
    steps: Seq<ResolveStep>,
    request: BackendRequest,
    backend_name: Seq<char>,
    written_url: Seq<char>,
    written_headers: Seq<(Seq<char>, Seq<char>)>,
)
    requires
        is_resolution(steps, request, backend_name, written_url, written_headers),
    ensures
        forall|i: int|
            0 <= i < steps.len() ==> ((#[trigger] steps[i]).action is ResolveCredentials <==> i == 0
                && crate::credentials::flattened(steps[0].event->template_refs@).len() > 0),
        steps[0].action matches ResolveAction::ResolveCredentials { context, .. }
            ==> crate::context::same_optional_caller(context.identity, request.identity),
{
    assert(resolves(
        steps[0].event,
        steps[0].action,
        request,
        backend_name,
        written_url,
        written_headers,
    ));
    assert forall|i: int| 0 <= i < steps.len() implies ((
    #[trigger] steps[i]).action is ResolveCredentials <==> i == 0
        && crate::credentials::flattened(steps[0].event->template_refs@).len() > 0) by {
        if i > 0 {
            assert(answers(steps[i - 1].action, steps[i].event));
        }
    }
}

/// A call whose credentials cannot be resolved ends there: it fails, and no client is
/// asked for.
pub proof fn law_failed_credentials_end_the_call(
    steps: Seq<ResolveStep>,
    request: BackendRequest,
    backend_name: Seq<char>,
    written_url: Seq<char>,
    written_headers: Seq<(Seq<char>, Seq<char>)>,
    i: int,
)
    requires
        is_resolution(steps, request, backend_name, written_url, written_headers),
        0 <= i < steps.len(),
        steps[i].event matches ResolveEvent::CredentialsResolved(resolved) && resolved is Err,
    ensures
        i == steps.len() - 1,
        steps[i].action is Fail,
        forall|j: int| 0 <= j < steps.len() ==> !((#[trigger] steps[j]).action is ObtainClient),
{
    law_host_is_asked_once(steps, request, backend_name, written_url, written_headers);
    assert(answers(steps[i - 1].action, steps[i].event));
    if i + 1 < steps.len() {
        assert(answers(steps[i].action, steps[i + 1].event));
    }
}

/// When a call comes in, its host is asked for exactly the references of its templates: the
/// snapshot holds each of them once, under itself, and nothing else. A call whose templates refer
/// to no credential goes on without any.
pub proof fn law_host_is_asked_for_every_reference<T>(
    runtime: &NetworkProfileRuntime<T>,
    request: &BackendRequest,
    backend_name: &str,
    template_refs: Vec<Vec<String>>,
    action: ResolveAction,
    uri: Seq<char>,
)
    requires
        call_ensures(
            NetworkProfileRuntime::<T>::resolve_client,
            (runtime, request, backend_name, ResolveEvent::Called { template_refs }),
            action,
        ),
    ensures
        match action {
            ResolveAction::Evaluate(credentials) => credentials@.len() == 0
                && !crate::credentials::is_referred_to(template_refs@, uri),
            ResolveAction::ResolveCredentials { context, snapshot } => {
                &&& snapshot.model() is Object
                &&& snapshot.model()->Object_0.len() > 0
                &&& snapshot.model()->Object_0.contains((uri, crate::json::Json::String(uri)))
                    <==> crate::credentials::is_referred_to(template_refs@, uri)
                &&& forall|i: int|
                    0 <= i < snapshot.model()->Object_0.len() ==> (
                    #[trigger] snapshot.model()->Object_0[i]).1 == crate::json::Json::String(
                        snapshot.model()->Object_0[i].0,
                    )
                &&& crate::sort::distinct_firsts(snapshot.model()->Object_0)
                &&& context.request_id@ == request.request_id@
                &&& context.backend_name@ == backend_name@
                &&& crate::context::same_option(context.session_id, request.session_id)
                &&& context.identity is Some <==> request.identity is Some
                &&& context.identity matches Some(told) ==> {
                    let caller = request.identity->Some_0;
                    &&& crate::context::same_option(told.subject_id, caller.subject_id)
                    &&& crate::context::same_option(told.trust_level, caller.trust_level)
                    &&& crate::context::same_option(told.auth_provider, caller.auth_provider)
                    &&& crate::context::same_option(told.kind, caller.kind)
                    &&& crate::context::same_list(told.roles@, caller.roles@)
                    &&& crate::context::same_list(told.groups@, caller.groups@)
                    &&& crate::context::same_list(told.scopes@, caller.scopes@)
                    &&& told.attributes.model() == caller.attributes.model()
                }
            },
            _ => false,
        },
{
    let refs = crate::credentials::flattened(template_refs@);
    crate::credentials::lemma_flattened_contains(template_refs@, uri);
    match action {
        ResolveAction::ResolveCredentials { context, snapshot } => {
            let uris = choose|uris: Seq<Seq<char>>|
                {
                    &&& snapshot.model() == #[trigger] crate::credentials::snapshot_of(uris)
                    &&& crate::sort::strictly_in_order(uris, crate::sort::by_text())
                    &&& forall|uri: Seq<char>| #[trigger]
                        uris.contains(uri) <==> refs.contains(uri)
                };
            if context.identity is Some {
                let (told, caller) = (context.identity->Some_0, request.identity->Some_0);
                crate::context::lemma_same_list(told.roles@, caller.roles@);
                crate::context::lemma_same_list(told.groups@, caller.groups@);
                crate::context::lemma_same_list(told.scopes@, caller.scopes@);
            }
            let entries = snapshot.model()->Object_0;
            assert(entries.len() == uris.len());
            assert(refs.contains(refs[0]));
            assert(uris.contains(refs[0]));
            if entries.contains((uri, crate::json::Json::String(uri))) {
                let n = choose|n: int|
                    0 <= n < entries.len() && entries[n] == (uri, crate::json::Json::String(uri));
                assert(uris[n] == uri);
                assert(uris.contains(uri));
            }
            if uris.contains(uri) {
                let n = choose|n: int| 0 <= n < uris.len() && uris[n] == uri;
                assert(entries[n] == (uri, crate::json::Json::String(uri)));
            }
            let le = crate::sort::by_text();
            assert forall|i: int, j: int|
                0 <= i < entries.len() && 0 <= j < entries.len() && #[trigger] entries[i].0
                    == #[trigger] entries[j].0 implies i == j by {
                if i < j {
                    assert(le(uris[i], uris[j]) && !le(uris[j], uris[i]));
                } else if j < i {
                    assert(le(uris[j], uris[i]) && !le(uris[i], uris[j]));
                }
            }
        },
        _ => {
            if refs.contains(uri) {
                let n = choose|n: int| 0 <= n < refs.len() && refs[n] == uri;
            }
        },
    }
}

/// After the host filled in the snapshot, the templates are evaluated with every credential in
/// it, and with nothing else. Where the host failed, the call ends with what the host says.
pub proof fn law_credentials_reach_the_templates<T>(
    runtime: &NetworkProfileRuntime<T>,
    request: &BackendRequest,
    backend_name: &str,
    resolved: Result<JsonValue, CredentialFailure>,
    action: ResolveAction,
    key: Seq<char>,
    text: Seq<char>,
)
    requires
        call_ensures(
            NetworkProfileRuntime::<T>::resolve_client,
            (runtime, request, backend_name, ResolveEvent::CredentialsResolved(resolved)),
            action,
        ),
    ensures
        resolved matches Ok(snapshot) ==> {
            &&& action matches ResolveAction::Evaluate(credentials)
            &&& (exists|n: int|
                0 <= n < credentials@.len() && (#[trigger] credentials@[n]).0@ == key
                    && credentials@[n].1@ == text) <==> (snapshot.model() is Object
                && snapshot.model()->Object_0.contains((key, crate::json::Json::String(text))))
        },
        resolved matches Err(CredentialFailure::Backend(cause)) ==> action is Fail
            && action->Fail_0@ == cause@,
        resolved matches Err(CredentialFailure::Other(reason)) ==> action is Fail
            && action->Fail_0@ == "credential resolution: "@ + reason@,
{
    if resolved is Ok {
        let snapshot = resolved->Ok_0;
        let credentials = action->Evaluate_0;
        let pairs = crate::types::pairs_model(credentials@);
        assert(pairs.len() == credentials@.len());
        if snapshot.model() is Object {
            crate::credentials::lemma_string_entries(snapshot.model()->Object_0, key, text);
        }
        if exists|n: int|
            0 <= n < credentials@.len() && (#[trigger] credentials@[n]).0@ == key
                && credentials@[n].1@ == text {
            let n = choose|n: int|
                0 <= n < credentials@.len() && (#[trigger] credentials@[n]).0@ == key
                    && credentials@[n].1@ == text;
            assert(pairs[n] == (key, text));
        }
        if pairs.contains((key, text)) {
            let n = choose|n: int| 0 <= n < pairs.len() && pairs[n] == (key, text);
            assert(credentials@[n].0@ == key && credentials@[n].1@ == text);
        }
    }
}

/// A bundle holds the value of every template: the URL as it was evaluated, and under each header
/// name that the operator wrote, in order, the value of its template.
pub proof fn law_bundle_holds_the_values<T>(
    runtime: &NetworkProfileRuntime<T>,
    url: Result<String, String>,
    outcomes: Vec<HeaderOutcome>,
    bundle: ResolvedBundle,
    i: int,
)
    requires
        outcomes@.len() == runtime.headers_as_written().len(),
        call_ensures(
            NetworkProfileRuntime::<T>::resolve_bundle,
            (runtime, url, outcomes),
            Ok(bundle),
        ),
    ensures
        url matches Ok(value) && value@ == bundle.resolved_url@,
        bundle.resolved_headers@.len() == runtime.headers_as_written().len(),
        0 <= i < outcomes@.len() ==> {
            &&& outcomes@[i] matches HeaderOutcome::Value(value)
            &&& bundle.resolved_headers@[i] == (runtime.headers_as_written()[i].0, value@)
        },
        bundle.digest@ == crate::bundle::bundle_digest(
            bundle.resolved_url@,
            bundle.resolved_headers@,
        ),
{
    lemma_first_bad(outcomes@);
    let values = named_values(runtime.headers_as_written(), outcomes@);
    if 0 <= i < outcomes@.len() {
        assert(outcomes@[i] is Value);
        assert(values[i] == (runtime.headers_as_written()[i].0, outcomes@[i]->Value_0@));
    }
}

/// The credentials under which the client of a call is kept are those of the references in what
/// the operator wrote, in the URL and in every header: all of them and no others.
pub proof fn law_bundle_is_kept_under_every_reference<T>(
    runtime: &NetworkProfileRuntime<T>,
    url: Result<String, String>,
    outcomes: Vec<HeaderOutcome>,
    bundle: ResolvedBundle,
    key: (Seq<char>, Seq<char>),
)
    requires
        call_ensures(
            NetworkProfileRuntime::<T>::resolve_bundle,
            (runtime, url, outcomes),
            Ok(bundle),
        ),
    ensures
        (exists|n: int|
            0 <= n < bundle.cred_keys@.len() && (#[trigger] bundle.cred_keys@[n]).0@ == key.0
                && bundle.cred_keys@[n].1@ == key.1) <==> (crate::client_registry::cred_refs(
            runtime.url_as_written(),
        ).contains(key) || exists|i: int|
            0 <= i < runtime.headers_as_written().len() && crate::client_registry::cred_refs(
                (#[trigger] runtime.headers_as_written()[i]).1,
            ).contains(key)),
{
    let keys = bundle.cred_keys@;
    let pairs = crate::types::pairs_model(keys);
    let (written_url, headers) = (runtime.url_as_written(), runtime.headers_as_written());
    crate::credentials::lemma_all_refs(written_url, headers, key);
    assert(pairs.contains(key) <==> crate::credentials::all_refs(written_url, headers).contains(
        key,
    ));
    if pairs.contains(key) {
        let n = choose|n: int| 0 <= n < pairs.len() && pairs[n] == key;
        assert(keys[n].0@ == key.0 && keys[n].1@ == key.1);
    }
    if exists|n: int| 0 <= n < keys.len() && (#[trigger] keys[n]).0@ == key.0 && keys[n].1@
        == key.1 {
        let n = choose|n: int|
            0 <= n < keys.len() && (#[trigger] keys[n]).0@ == key.0 && keys[n].1@ == key.1;
        assert(pairs[n] == key);
    }
}

/// A call has no bundle exactly where its URL or one of its headers has no value. The message is
/// about the URL first, and else about the first such header, by its name and with the reason.
pub proof fn law_first_template_without_a_value_is_told<T>(
    runtime: &NetworkProfileRuntime<T>,
    url: Result<String, String>,
    outcomes: Vec<HeaderOutcome>,
    bundle: Result<ResolvedBundle, String>,
    i: int,
)
    requires
        outcomes@.len() == runtime.headers_as_written().len(),
        call_ensures(
            NetworkProfileRuntime::<T>::resolve_bundle,
            (runtime, url, outcomes),
            bundle,
        ),
    ensures
        bundle is Ok <==> url is Ok && forall|n: int|
            0 <= n < outcomes@.len() ==> (#[trigger] outcomes@[n]) is Value,
        url matches Err(reason) ==> bundle->Err_0@ == "evaluating URL expression: "@ + reason@,
        url is Ok && 0 <= i < outcomes@.len() && (forall|n: int|
            0 <= n < i ==> (#[trigger] outcomes@[n]) is Value) ==> {
            &&& outcomes@[i] matches HeaderOutcome::Failed(reason) ==> bundle->Err_0@
                == "evaluating header '"@ + runtime.headers_as_written()[i].0 + "' expression: "@
                + reason@
            &&& outcomes@[i] matches HeaderOutcome::Refused(reason) ==> bundle->Err_0@
                == "header"@ + " '"@ + runtime.headers_as_written()[i].0 + "': "@ + reason@
        },
{
    lemma_first_bad(outcomes@);
    let bad = first_bad(outcomes@);
    if url is Ok && 0 <= i < outcomes@.len() && !(outcomes@[i] is Value) && (forall|n: int|
        0 <= n < i ==> (#[trigger] outcomes@[n]) is Value) {
        if bad < i {
            assert(outcomes@[bad] is Value);
        } else if bad > i {
            assert(outcomes@[i] is Value);
        }
    }
}

/// After the templates were evaluated a client is asked for, for the bundle of their values, or
/// the call ends with the message about the first that has none: what comes next is what the
/// values come to.
pub proof fn law_evaluated_call_asks_for_its_client<T>(
    runtime: &NetworkProfileRuntime<T>,
    request: &BackendRequest,
    backend_name: &str,
    url: Result<String, String>,
    outcomes: Vec<HeaderOutcome>,
    action: ResolveAction,
    resolved: Result<ResolvedBundle, String>,
)
    requires
        call_ensures(
            NetworkProfileRuntime::<T>::resolve_client,
            (runtime, request, backend_name, ResolveEvent::Evaluated { url, outcomes }),
            action,
        ),
        call_ensures(
            NetworkProfileRuntime::<T>::resolve_bundle,
            (runtime, url, outcomes),
            resolved,
        ),
    ensures
        resolved matches Ok(bundle) ==> {
            &&& action matches ResolveAction::ObtainClient(asked)
            &&& asked.resolved_url@ == bundle.resolved_url@
            &&& asked.resolved_headers@ == bundle.resolved_headers@
            &&& asked.digest@ == bundle.digest@
            &&& asked.cred_keys@.len() == bundle.cred_keys@.len()
            &&& forall|i: int|
                0 <= i < asked.cred_keys@.len() ==> (#[trigger] asked.cred_keys@[i]).0@
                    == bundle.cred_keys@[i].0@ && asked.cred_keys@[i].1@
                    == bundle.cred_keys@[i].1@
        },
        resolved matches Err(message) ==> action is Fail && action->Fail_0@ == message@,
{
    if resolved is Ok {
        let (asked, bundle) = (action->ObtainClient_0, resolved->Ok_0);
        let (a, b) = (
            crate::types::pairs_model(asked.cred_keys@),
            crate::types::pairs_model(bundle.cred_keys@),
        );
        crate::credentials::law_cred_keys_are_fixed(
            a,
            b,
            runtime.url_as_written(),
            runtime.headers_as_written(),
        );
        assert(a.len() == asked.cred_keys@.len() && b.len() == bundle.cred_keys@.len());
        assert forall|i: int| 0 <= i < asked.cred_keys@.len() implies (
        #[trigger] asked.cred_keys@[i]).0@ == bundle.cred_keys@[i].0@ && asked.cred_keys@[i].1@
            == bundle.cred_keys@[i].1@ by {
            assert(a[i] == (asked.cred_keys@[i].0@, asked.cred_keys@[i].1@));
            assert(b[i] == (bundle.cred_keys@[i].0@, bundle.cred_keys@[i].1@));
        }
    }
}

/// A call is done with the client that was obtained for its bundle, and with the URL and the
/// headers of that bundle; without a client it fails, with the reason.
pub proof fn law_call_uses_the_obtained_client<T>(
    runtime: &NetworkProfileRuntime<T>,
    request: &BackendRequest,
    backend_name: &str,
    bundle: ResolvedBundle,
    client: Result<SharedClient, String>,
    action: ResolveAction,
)
    requires
        call_ensures(
            NetworkProfileRuntime::<T>::resolve_client,
            (runtime, request, backend_name, ResolveEvent::ClientObtained { bundle, client }),
            action,
        ),
    ensures
        client matches Ok(client) ==> {
            &&& action matches ResolveAction::Done(call)
            &&& call.client == client
            &&& call.resolved_url@ == bundle.resolved_url@
            &&& call.resolved_headers@ == bundle.resolved_headers@
        },
        client matches Err(reason) ==> action is Fail && action->Fail_0@
            == "building HTTP client: "@ + reason@,
{
}

/// A call without arguments or credentials goes to the base URL of the profile, without headers.
pub proof fn law_static_call_goes_to_the_base_url<T>(
    runtime: &NetworkProfileRuntime<T>,
    bundle: ResolvedBundle,
)
    requires
        call_ensures(NetworkProfileRuntime::<T>::resolve_static_client, (runtime,), bundle),
    ensures
        bundle.resolved_url@ == runtime.knobs().url@,
        bundle.resolved_headers@.len() == 0,
        bundle.cred_keys@.len() == 0,
        bundle.digest@ == crate::bundle::bundle_digest(
            bundle.resolved_url@,
            bundle.resolved_headers@,
        ),
{
    assert(crate::types::pairs_model(bundle.cred_keys@).len() == bundle.cred_keys@.len());
    assert(bundle.resolved_headers@ =~= Seq::empty());
}

proof fn lemma_first_uncompiled<T>(compiled: Seq<Result<T, String>>)
    ensures
        0 <= first_uncompiled(compiled) <= compiled.len(),
        forall|i: int| 0 <= i < first_uncompiled(compiled) ==> (#[trigger] compiled[i]) is Ok,
        first_uncompiled(compiled) < compiled.len() ==> compiled[first_uncompiled(compiled)] is Err,
    decreases compiled.len(),
{
    if compiled.len() > 0 && compiled.first() is Ok {
        let rest = compiled.drop_first();
        lemma_first_uncompiled(rest);
        assert forall|i: int| 0 <= i < first_uncompiled(compiled) implies (
        #[trigger] compiled[i]) is Ok by {
            if i > 0 {
                assert(compiled[i] == rest[i - 1]);
            }
        }
        if first_uncompiled(compiled) < compiled.len() {
            assert(compiled[first_uncompiled(compiled)] == rest[first_uncompiled(rest)]);
        }
    }
}

/// A profile is registered exactly where its URL and all its headers compile; else the message
/// is about the URL first, and then about the first header that does not, by its name.
pub proof fn law_profile_is_registered_where_it_compiles<T>(
    raw_url: String,
    raw_headers: HeaderTable,
    profile: HttpRequestProfile,
    compiled_url: Result<T, String>,
    compiled_headers: Vec<Result<T, String>>,
    secret_refs: Vec<String>,
    runtime: Result<NetworkProfileRuntime<T>, String>,
    i: int,
)
    requires
        compiled_headers@.len() == raw_headers@.len(),
        call_ensures(
            NetworkProfileRuntime::<T>::register,
            (raw_url, raw_headers, profile, compiled_url, compiled_headers, secret_refs),
            runtime,
        ),
    ensures
        runtime is Ok <==> compiled_url is Ok && forall|n: int|
            0 <= n < compiled_headers@.len() ==> (#[trigger] compiled_headers@[n]) is Ok,
        compiled_url matches Err(reason) ==> runtime->Err_0@ == "url expression: "@ + reason@,
        compiled_url is Ok && 0 <= i < compiled_headers@.len() && compiled_headers@[i] is Err && (
        forall|n: int| 0 <= n < i ==> (#[trigger] compiled_headers@[n]) is Ok)
            ==> runtime->Err_0@ == "header '"@ + raw_headers@[i].0 + "' expression: "@
            + compiled_headers@[i]->Err_0@,
        runtime matches Ok(runtime) ==> {
            &&& runtime.knobs() == profile
            &&& runtime.url_as_written() == raw_url@
            &&& runtime.headers_as_written() == raw_headers@
            &&& runtime.marked() == crate::credentials::any_marker(raw_url@, raw_headers@)
            &&& runtime.secrets().len() == secret_refs@.len()
            &&& forall|n: int|
                0 <= n < secret_refs@.len() ==> #[trigger] runtime.secrets()[n]
                    == secret_refs@[n]@
            &&& compiled_url->Ok_0 == runtime.url_template_as_compiled()
            &&& 0 <= i < compiled_headers@.len() ==> compiled_headers@[i]->Ok_0
                == runtime.header_templates_as_compiled()[i]
        },
{
    let all = compiled_headers@;
    lemma_first_uncompiled(all);
    let bad = first_uncompiled(all);
    if compiled_url is Ok && 0 <= i < all.len() && all[i] is Err && (forall|n: int|
        0 <= n < i ==> (#[trigger] all[n]) is Ok) {
        if bad < i {
            assert(all[bad] is Ok);
        } else if bad > i {
            assert(all[i] is Ok);
        }
    }
    if runtime is Ok && 0 <= i < all.len() {
        assert(all[i] == Ok::<T, String>(runtime->Ok_0.header_templates_as_compiled()[i]));
    }
}

/// A profile concerns a secret exactly where it was registered with it, and has a header exactly
/// where the operator wrote it, in any case.
pub proof fn law_profile_knows_its_secrets_and_headers<T>(
    runtime: &NetworkProfileRuntime<T>,
    text: &str,
    derives: bool,
    has: bool,
)
    requires
        call_ensures(NetworkProfileRuntime::<T>::derives_from_secret, (runtime, text), derives),
        call_ensures(NetworkProfileRuntime::<T>::operator_has_header, (runtime, text), has),
    ensures
        derives <==> exists|i: int|
            0 <= i < runtime.secrets().len() && #[trigger] runtime.secrets()[i] == text@,
        has <==> exists|i: int|
            0 <= i < runtime.headers_as_written().len() && crate::text::eq_ignore_case(
                (#[trigger] runtime.headers_as_written()[i]).0,
                text@,
            ),
{
    assert(runtime.secrets().contains(text@) <==> exists|i: int|
        0 <= i < runtime.secrets().len() && #[trigger] runtime.secrets()[i] == text@);
}

/// What a profile holds is handed out as it is.
pub proof fn law_profile_is_handed_out_as_registered<T>(
    runtime: &NetworkProfileRuntime<T>,
    profile: &HttpRequestProfile,
    url: &str,
    headers: &HeaderTable,
    marked: bool,
    template: &T,
    templates: &Vec<T>,
)
    requires
        call_ensures(NetworkProfileRuntime::<T>::profile, (runtime,), profile),
        call_ensures(NetworkProfileRuntime::<T>::raw_url, (runtime,), url),
        call_ensures(NetworkProfileRuntime::<T>::raw_headers, (runtime,), headers),
        call_ensures(NetworkProfileRuntime::<T>::has_cred_refs, (runtime,), marked),
        call_ensures(NetworkProfileRuntime::<T>::url_template, (runtime,), template),
        call_ensures(NetworkProfileRuntime::<T>::header_templates, (runtime,), templates),
    ensures
        *profile == runtime.knobs(),
        url@ == runtime.url_as_written(),
        headers@ == runtime.headers_as_written(),
        marked == runtime.marked(),
        *template == runtime.url_template_as_compiled(),
        templates@ == runtime.header_templates_as_compiled(),
{
}

/// When a secret is rotated, a profile that derives from it keeps no client and any other keeps
/// all of them; when a credential is revoked, a profile keeps exactly the clients that are not
/// cached under it.
pub proof fn law_notices_reach_the_clients<T>(
    runtime: &NetworkProfileRuntime<T>,
    rotated: &mut ClientRegistry,
    secret_ref: &str,
    revoked: &mut ClientRegistry,
    plugin_id: &str,
    target: &str,
    dropped: usize,
    evicted: usize,
    digest: Seq<u8>,
)
    requires
        call_ensures(
            NetworkProfileRuntime::<T>::secret_rotated,
            (runtime, rotated, secret_ref),
            dropped,
        ),
        call_ensures(
            NetworkProfileRuntime::<T>::credential_revoked,
            (runtime, revoked, plugin_id, target),
            evicted,
        ),
    ensures
        ({
            let (before, after) = (old(rotated).clients(), final(rotated).clients());
            let derives = exists|i: int|
                0 <= i < runtime.secrets().len() && #[trigger] runtime.secrets()[i] == secret_ref@;
            &&& derives ==> !after.contains_key(digest)
            &&& !derives ==> after == before
            &&& dropped == before.len() - after.len()
        }),
        ({
            let (before, after) = (old(revoked).clients(), final(revoked).clients());
            &&& after.contains_key(digest) <==> before.contains_key(digest)
                && !before[digest].cred_keys.contains((plugin_id@, target@))
            &&& after.contains_key(digest) ==> after[digest] == before[digest]
            &&& evicted == before.len() - after.len()
        }),
{
    assert(runtime.secrets().contains(secret_ref@) <==> exists|i: int|
        0 <= i < runtime.secrets().len() && #[trigger] runtime.secrets()[i] == secret_ref@);
}

/// The message for a client that could not be built tells the reason.
pub proof fn law_client_failure_is_told(reason: &str, message: String)
    requires
        call_ensures(client_failure_message, (reason,), message),
    ensures
        message@ == "building HTTP client: "@ + reason@,
{
}

} // verus!
