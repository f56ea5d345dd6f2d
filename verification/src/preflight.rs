//! What a tool call needs permission for, and what it is told if the
//! permission is refused.

use crate::json::{json_value, parse_json, Json, JsonModel};
use crate::text::{
    ascii_lower, ascii_lowercase, chars_of, chars_strip_front, contains_text, find_char,
    index_of_char, is_one_of, lemma_contains_part, lemma_index_of_char, lemma_other_start,
    lemma_starts_with_part, str_views, strip_front, text_of,
};
use vstd::prelude::*;
use vstd::slice::slice_subrange;
use vstd::string::*;

verus! {

// ── Decisions ──────────────────────────────────────────────────────────────
/// What a tool call does.
#[derive(Debug, Clone, Copy, PartialEq, Eq, Structural)]
pub enum ExpansionCapability {
    Read,
    Write,
    Network,
    Exec,
}

/// Why a permission is refused.
#[derive(Debug)]
pub enum DenyReason {
    NotInAllowList,
    MatchesDeny,
    NetworkDisabled,
    HostDenied(String),
    ExecDisabled,
    CommandBlacklisted(String),
}

/// What an envelope says of an action.
#[derive(Debug)]
pub enum Decision {
    Allow,
    /// The action is only to be simulated.
    Intercept,
    Deny(DenyReason),
}

/// What becomes of a tool call.
#[derive(Debug)]
pub enum PreflightOutcome {
    /// It is made.
    Allow,
    /// It is not made, and this text is its result.
    Intercept(String),
    /// It is not made, and `content` is its result, an error.
    Deny { content: String, capability: String, resource: String, reason: String },
}

/// The model of a [`PreflightOutcome`].
pub enum PreflightModel {
    Allow,
    Intercept(Seq<char>),
    Deny { content: Seq<char>, capability: Seq<char>, resource: Seq<char>, reason: Seq<char> },
}

impl View for PreflightOutcome {
    type V = PreflightModel;

    open spec fn view(&self) -> PreflightModel {
        match self {
            PreflightOutcome::Allow => PreflightModel::Allow,
            PreflightOutcome::Intercept(s) => PreflightModel::Intercept(s@),
            PreflightOutcome::Deny { content, capability, resource, reason } => {
                PreflightModel::Deny {
                    content: content@,
                    capability: capability@,
                    resource: resource@,
                    reason: reason@,
                }
            },
        }
    }
}

/// The name of what a tool call does.
pub open spec fn capability_name(c: ExpansionCapability) -> Seq<char> {
    match c {
        ExpansionCapability::Read => "read"@,
        ExpansionCapability::Write => "write"@,
        ExpansionCapability::Network => "network"@,
        ExpansionCapability::Exec => "exec"@,
    }
}

/// The name of what a tool call does.
pub fn capability_str(c: &ExpansionCapability) -> (r: &'static str)
    ensures
        r@ == capability_name(*c),
{
    match c {
        ExpansionCapability::Read => "read",
        ExpansionCapability::Write => "write",
        ExpansionCapability::Network => "network",
        ExpansionCapability::Exec => "exec",
    }
}

/// The name of a reason.
pub open spec fn reason_name(r: DenyReason) -> Seq<char> {
    match r {
        DenyReason::NotInAllowList => "NotInAllowList"@,
        DenyReason::MatchesDeny => "MatchesDeny"@,
        DenyReason::NetworkDisabled => "NetworkDisabled"@,
        DenyReason::HostDenied(_) => "HostDenied"@,
        DenyReason::ExecDisabled => "ExecDisabled"@,
        DenyReason::CommandBlacklisted(_) => "CommandBlacklisted"@,
    }
}

/// The name of a reason.
pub fn deny_reason_tag(r: &DenyReason) -> (t: &'static str)
    ensures
        t@ == reason_name(*r),
{
    match r {
        DenyReason::NotInAllowList => "NotInAllowList",
        DenyReason::MatchesDeny => "MatchesDeny",
        DenyReason::NetworkDisabled => "NetworkDisabled",
        DenyReason::HostDenied(_) => "HostDenied",
        DenyReason::ExecDisabled => "ExecDisabled",
        DenyReason::CommandBlacklisted(_) => "CommandBlacklisted",
    }
}

/// What becomes of a tool call, given what the envelope says. `why` is the
/// reason in words.
pub open spec fn outcome_of(
    capability: ExpansionCapability,
    decision: Decision,
    resource: Seq<char>,
    why: Seq<char>,
) -> PreflightModel {
    match decision {
        Decision::Allow => PreflightModel::Allow,
        Decision::Intercept => PreflightModel::Intercept(
            "[plan-mode simulation] would "@ + capability_name(capability) + " '"@ + resource
                + "' — no action taken"@,
        ),
        Decision::Deny(reason) => PreflightModel::Deny {
            content: "PERMISSION_OUT_OF_SCOPE: "@ + capability_name(capability) + " '"@ + resource
                + "' is outside the current envelope ("@ + why
                + "). The orchestrator has been notified; the user may grant scope expansion. Do not retry; await scope expansion or pick a different action."@,
            capability: capability_name(capability),
            resource,
            reason: reason_name(reason),
        },
    }
}

/// What becomes of a tool call, given what the envelope says. `why` is the
/// reason in words.
pub fn format_preflight_outcome(
    capability: ExpansionCapability,
    decision: &Decision,
    resource: &str,
    why: &str,
) -> (r: PreflightOutcome)
    ensures
        r@ == outcome_of(capability, *decision, resource@, why@),
{
    match decision {
        Decision::Allow => PreflightOutcome::Allow,
        Decision::Intercept => {
            let mut out = "[plan-mode simulation] would ".to_owned();
            out.append(capability_str(&capability));
            out.append(" '");
            out.append(resource);
            out.append("' — no action taken");
            PreflightOutcome::Intercept(out)
        },
        Decision::Deny(reason) => {
            let mut content = "PERMISSION_OUT_OF_SCOPE: ".to_owned();
            content.append(capability_str(&capability));
            content.append(" '");
            content.append(resource);
            content.append("' is outside the current envelope (");
            content.append(why);
            content.append(
                "). The orchestrator has been notified; the user may grant scope expansion. Do not retry; await scope expansion or pick a different action.",
            );
            PreflightOutcome::Deny {
                content,
                capability: capability_str(&capability).to_owned(),
                resource: resource.to_owned(),
                reason: deny_reason_tag(reason).to_owned(),
            }
        },
    }
}

// ── Classification ─────────────────────────────────────────────────────────
/// What a tool call does, and to what. `host` is the host of a network call
/// whose resource is a URL.
#[derive(Debug)]
pub struct ToolScope {
    pub capability: ExpansionCapability,
    pub resource: String,
    pub host: Option<String>,
}

/// The model of a [`ToolScope`].
pub struct ScopeModel {
    pub capability: ExpansionCapability,
    pub resource: Seq<char>,
    pub host: Option<Seq<char>>,
}

impl View for ToolScope {
    type V = ScopeModel;

    open spec fn view(&self) -> ScopeModel {
        ScopeModel {
            capability: self.capability,
            resource: self.resource@,
            host: match self.host {
                Some(h) => Some(h@),
                None => None,
            },
        }
    }
}

/// Tools that run commands.
pub open spec fn exec_tools() -> Seq<Seq<char>> {
    seq!["bash"@, "shell"@, "terminal"@, "exec"@, "run_command"@, "unsafe_shell"@]
}

/// Tools that use the network.
pub open spec fn network_tools() -> Seq<Seq<char>> {
    seq!["web_fetch"@, "fetch"@, "http_get"@, "http_post"@, "web_search"@]
}

/// Tools that write files.
pub open spec fn write_tools() -> Seq<Seq<char>> {
    seq![
        "write_file"@, "edit_file"@, "edit"@, "create"@, "create_file"@, "apply_patch"@,
        "move_file"@, "delete_file"@, "rename_file"@,
    ]
}

/// The text of the first of the first `n` keys that has one.
pub open spec fn first_text(input: JsonModel, keys: Seq<Seq<char>>, n: nat) -> Option<Seq<char>>
    decreases n,
{
    if n == 0 {
        None
    } else {
        match first_text(input, keys, (n - 1) as nat) {
            Some(s) => Some(s),
            None => input.member_text(keys[n - 1]),
        }
    }
}

/// The text of the first key that has one, or `<unknown>`.
pub open spec fn resource_of(input: JsonModel, keys: Seq<Seq<char>>) -> Seq<char> {
    match first_text(input, keys, keys.len()) {
        Some(s) => s,
        None => "<unknown>"@,
    }
}

/// What stands in `s` before the first `c`.
pub open spec fn before_char(s: Seq<char>, c: char) -> Seq<char> {
    s.subrange(0, index_of_char(s, c, 0))
}

/// The host of a URL: what stands between the scheme and the next slash or
/// colon.
pub open spec fn host_of(url: Seq<char>) -> Option<Seq<char>> {
    let rest = match strip_front(url, "https://"@) {
        Some(s) => Some(s),
        None => strip_front(url, "http://"@),
    };
    match rest {
        Some(s) => {
            let host = before_char(before_char(s, '/'), ':');
            if host.len() == 0 {
                None
            } else {
                Some(host)
            }
        },
        None => None,
    }
}

/// What a tool call does, and to what.
pub open spec fn scope_of(tool_name: Seq<char>, input: JsonModel) -> ScopeModel {
    let name = ascii_lower(tool_name);
    if exec_tools().contains(name) {
        ScopeModel {
            capability: ExpansionCapability::Exec,
            resource: resource_of(input, seq!["command"@, "cmd"@, "script"@]),
            host: None,
        }
    } else if network_tools().contains(name) {
        let url = resource_of(input, seq!["url"@, "query"@]);
        ScopeModel { capability: ExpansionCapability::Network, resource: url, host: host_of(url) }
    } else if write_tools().contains(name) {
        ScopeModel {
            capability: ExpansionCapability::Write,
            resource: resource_of(input, seq!["path"@, "file"@, "file_path"@, "target"@]),
            host: None,
        }
    } else {
        ScopeModel {
            capability: ExpansionCapability::Read,
            resource: resource_of(input, seq!["path"@, "file"@, "file_path"@]),
            host: None,
        }
    }
}

fn find_resource(input: &Json, keys: &[&str]) -> (r: String)
    ensures
        r@ == resource_of(input@, str_views(keys@)),
{
    let ghost all = str_views(keys@);
    let mut found: Option<String> = None;
    let mut i: usize = 0;
    while i < keys.len()
        invariant
            all == str_views(keys@),
            i <= all.len(),
            match found {
                Some(s) => first_text(input@, all, i as nat) == Some(s@),
                None => first_text(input@, all, i as nat) is None,
            },
        decreases all.len() - i,
    {
        assert(all[i as int] == keys@[i as int]@);
        if found.is_none() {
            match input.get_str(keys[i]) {
                Some(s) => {
                    found = Some(s.to_owned());
                },
                None => {},
            }
        }
        i += 1;
    }
    match found {
        Some(s) => s,
        None => "<unknown>".to_owned(),
    }
}

fn chars_before<'a>(s: &'a [char], c: char) -> (r: &'a [char])
    ensures
        r@ == before_char(s@, c),
{
    let k: usize = find_char(s, c, 0);
    slice_subrange(s, 0, k)
}

/// The host of a URL.
pub fn extract_host(url: &str) -> (r: Option<String>)
    ensures
        match r {
            Some(h) => host_of(url@) == Some(h@),
            None => host_of(url@) is None,
        },
{
    let c = chars_of(url);
    let rest = match chars_strip_front(c.as_slice(), "https://") {
        Some(s) => s,
        None => match chars_strip_front(c.as_slice(), "http://") {
            Some(s) => s,
            None => {
                return None;
            },
        },
    };
    let host = chars_before(chars_before(rest, '/'), ':');
    if host.len() == 0 {
        None
    } else {
        Some(text_of(host))
    }
}

/// The input of a tool call; a text that is no JSON counts as null.
pub fn input_of(text: &str) -> (r: Json)
    ensures
        r@ == (match json_value(text@) {
            Some(j) => j,
            None => JsonModel::Null,
        }),
{
    input_or_null(parse_json(text))
}

/// The value that was read, or null.
pub fn input_or_null(read: Option<Json>) -> (r: Json)
    ensures
        match read {
            Some(j) => r == j,
            None => r@ == JsonModel::Null,
        },
{
    match read {
        Some(j) => j,
        None => Json::Null,
    }
}

/// What a tool call does, and to what: tools are told apart by their names,
/// and one that is not known reads.
pub fn classify_tool_call(tool_name: &str, input: &Json) -> (r: ToolScope)
    ensures
        r@ == scope_of(tool_name@, input@),
{
    let name = ascii_lowercase(tool_name);
    let exec: [&str; 6] = ["bash", "shell", "terminal", "exec", "run_command", "unsafe_shell"];
    assert(str_views(exec@) =~= exec_tools());
    if is_one_of(name.as_str(), exec.as_slice()) {
        let keys: [&str; 3] = ["command", "cmd", "script"];
        assert(str_views(keys@) =~= seq!["command"@, "cmd"@, "script"@]);
        return ToolScope {
            capability: ExpansionCapability::Exec,
            resource: find_resource(input, keys.as_slice()),
            host: None,
        };
    }
    let network: [&str; 5] = ["web_fetch", "fetch", "http_get", "http_post", "web_search"];
    assert(str_views(network@) =~= network_tools());
    if is_one_of(name.as_str(), network.as_slice()) {
        let keys: [&str; 2] = ["url", "query"];
        assert(str_views(keys@) =~= seq!["url"@, "query"@]);
        let url = find_resource(input, keys.as_slice());
        let host = extract_host(url.as_str());
        return ToolScope { capability: ExpansionCapability::Network, resource: url, host };
    }
    let write: [&str; 9] = [
        "write_file", "edit_file", "edit", "create", "create_file", "apply_patch", "move_file",
        "delete_file", "rename_file",
    ];
    assert(str_views(write@) =~= write_tools());
    if is_one_of(name.as_str(), write.as_slice()) {
        let keys: [&str; 4] = ["path", "file", "file_path", "target"];
        assert(str_views(keys@) =~= seq!["path"@, "file"@, "file_path"@, "target"@]);
        return ToolScope {
            capability: ExpansionCapability::Write,
            resource: find_resource(input, keys.as_slice()),
            host: None,
        };
    }
    let keys: [&str; 3] = ["path", "file", "file_path"];
    assert(str_views(keys@) =~= seq!["path"@, "file"@, "file_path"@]);
    ToolScope {
        capability: ExpansionCapability::Read,
        resource: find_resource(input, keys.as_slice()),
        host: None,
    }
}

/// What becomes of a tool call once the envelope, if there is one, has been
/// asked: without one every call is made.
pub fn preflight_envelope_of(scope: &ToolScope, decision: Option<(Decision, String)>) -> (r:
    PreflightOutcome)
    ensures
        match decision {
            Some(d) => r@ == outcome_of(scope@.capability, d.0, scope@.resource, d.1@),
            None => r@ is Allow,
        },
{
    match decision {
        Some((d, why)) => format_preflight_outcome(
            scope.capability,
            &d,
            scope.resource.as_str(),
            why.as_str(),
        ),
        None => PreflightOutcome::Allow,
    }
}

// ── Laws ───────────────────────────────────────────────────────────────────
/// A call is made only if the envelope allows it; a simulated one is told so without
/// being an error, and a refused one is told the resource and the reason.
#[verifier::spinoff_prover]
pub proof fn law_only_allowed_calls_are_made(
    capability: ExpansionCapability,
    decision: Decision,
    resource: Seq<char>,
    why: Seq<char>,
)
    ensures
        ({
            let o = outcome_of(capability, decision, resource, why);
            &&& o is Allow <==> decision is Allow
            &&& decision is Intercept ==> o is Intercept && contains_text(
                o->Intercept_0,
                resource,
            ) && contains_text(o->Intercept_0, capability_name(capability))
            &&& decision matches Decision::Deny(reason) ==> {
                &&& o is Deny
                &&& o->capability == capability_name(capability)
                &&& o->resource == resource
                &&& o->reason == reason_name(reason)
                &&& contains_text(o->content, why)
                &&& contains_text(o->content, resource)
                &&& contains_text(o->content, capability_name(capability))
            }
        }),
{
    let name = capability_name(capability);
    match decision {
        Decision::Allow => {},
        Decision::Intercept => {
            let a = "[plan-mode simulation] would "@;
            let z = "' — no action taken"@;
            let text = outcome_of(capability, decision, resource, why)->Intercept_0;
            lemma_contains_part(a, name, " '"@ + resource + z);
            assert(a + name + (" '"@ + resource + z) =~= text);
            lemma_contains_part(a + name + " '"@, resource, z);
        },
        Decision::Deny(_) => {
            let a = "PERMISSION_OUT_OF_SCOPE: "@;
            let b = "' is outside the current envelope ("@;
            let z =
                "). The orchestrator has been notified; the user may grant scope expansion. Do not retry; await scope expansion or pick a different action."@;
            let text = outcome_of(capability, decision, resource, why)->content;
            lemma_contains_part(a, name, " '"@ + resource + b + why + z);
            assert(a + name + (" '"@ + resource + b + why + z) =~= text);
            lemma_contains_part(a + name + " '"@, resource, b + why + z);
            assert(a + name + " '"@ + resource + (b + why + z) =~= text);
            lemma_contains_part(a + name + " '"@ + resource + b, why, z);
        },
    }
}

/// The host of a URL ends before its port and before its path.
pub proof fn law_hosts_end_before_port_and_path(host: Seq<char>, port: Seq<char>, path: Seq<char>)
    requires
        host.len() > 0,
        !host.contains('/'),
        !host.contains(':'),
        !port.contains('/'),
    ensures
        host_of("https://"@ + host) == Some(host),
        host_of("http://"@ + host) == Some(host),
        host_of("https://"@ + (host + "/"@ + path)) == Some(host),
        host_of("http://"@ + (host + ":"@ + port)) == Some(host),
        host_of("https://"@ + (host + ":"@ + port + "/"@ + path)) == Some(host),
{
    reveal_strlit("https://");
    reveal_strlit("http://");
    reveal_strlit("/");
    reveal_strlit(":");
    let all = seq![
        host,
        host + "/"@ + path,
        host + ":"@ + port,
        host + ":"@ + port + "/"@ + path,
    ];
    assert forall|k: int| 0 <= k < 4 implies host_of("https://"@ + #[trigger] all[k]) == Some(host)
        && host_of("http://"@ + all[k]) == Some(host) by {
        let s = all[k];
        lemma_starts_with_part("https://"@, s);
        lemma_starts_with_part("http://"@, s);
        lemma_other_start("http://"@ + s, "https://"@, 4);
        let cut = before_char(s, '/');
        assert forall|i: int| 0 <= i < host.len() implies host[i] != '/' && host[i] != ':' by {
            assert(host.contains(host[i]));
        }
        assert forall|i: int| 0 <= i < port.len() implies port[i] != '/' by {
            assert(port.contains(port[i]));
        }
        let n = if k == 0 || k == 1 {
            host.len() as int
        } else {
            (host.len() + 1 + port.len()) as int
        };
        lemma_cut_at(s, '/', n);
        assert(cut =~= s.subrange(0, n));
        lemma_cut_at(cut, ':', host.len() as int);
        assert(cut.subrange(0, host.len() as int) =~= host);
    }
    assert(all[0] == host);
    assert(all[1] == host + "/"@ + path);
    assert(all[2] == host + ":"@ + port);
    assert(all[3] == host + ":"@ + port + "/"@ + path);
}

proof fn lemma_cut_at(s: Seq<char>, c: char, n: int)
    requires
        0 <= n <= s.len(),
        forall|i: int| 0 <= i < n ==> s[i] != c,
        n < s.len() ==> s[n] == c,
    ensures
        index_of_char(s, c, 0) == n,
{
    lemma_index_of_char(s, c, 0);
    let k = index_of_char(s, c, 0);
    if n < k {
        assert(s[n] != c);
    }
}

/// The first key that has a text gives the resource; without one it is not known.
pub proof fn law_the_first_text_is_the_resource(input: JsonModel, keys: Seq<Seq<char>>, k: int)
    ensures
        0 <= k < keys.len() && input.member_text(keys[k]) is Some && (forall|i: int|
            0 <= i < k ==> input.member_text(#[trigger] keys[i]) is None) ==> resource_of(
            input,
            keys,
        ) == input.member_text(keys[k])->0,
        (forall|i: int| 0 <= i < keys.len() ==> input.member_text(#[trigger] keys[i]) is None)
            ==> resource_of(input, keys) == "<unknown>"@,
{
    lemma_first_text(input, keys, keys.len(), k);
}

proof fn lemma_first_text(input: JsonModel, keys: Seq<Seq<char>>, n: nat, k: int)
    requires
        n <= keys.len(),
    ensures
        0 <= k < n && input.member_text(keys[k]) is Some && (forall|i: int|
            0 <= i < k ==> input.member_text(#[trigger] keys[i]) is None) ==> first_text(
            input,
            keys,
            n,
        ) == input.member_text(keys[k]),
        (forall|i: int| 0 <= i < n ==> input.member_text(#[trigger] keys[i]) is None)
            ==> first_text(input, keys, n) is None,
    decreases n,
{
    if n > 0 {
        lemma_first_text(input, keys, (n - 1) as nat, k);
    }
}

/// A shell is never taken for a reader: what runs commands, uses the network or writes
/// is judged as such, in whatever case its name is written; every other tool reads.
pub proof fn law_tools_are_judged_by_what_they_do(tool: Seq<char>, input: JsonModel)
    ensures
        ({
            let name = ascii_lower(tool);
            let c = scope_of(tool, input).capability;
            &&& name == "bash"@ || name == "shell"@ || name == "terminal"@ || name == "exec"@
                || name == "run_command"@ || name == "unsafe_shell"@ ==> c
                == ExpansionCapability::Exec
            &&& c == ExpansionCapability::Exec ==> exec_tools().contains(name) && scope_of(
                tool,
                input,
            ).resource == resource_of(input, seq!["command"@, "cmd"@, "script"@])
            &&& c == ExpansionCapability::Network ==> network_tools().contains(name)
            &&& c == ExpansionCapability::Write ==> write_tools().contains(name)
            &&& c == ExpansionCapability::Read ==> !exec_tools().contains(name)
                && !network_tools().contains(name) && !write_tools().contains(name)
            &&& scope_of(tool, input).host is Some ==> c == ExpansionCapability::Network
        }),
        forall|other: Seq<char>| #[trigger]
            ascii_lower(other) == ascii_lower(tool) ==> scope_of(other, input) == scope_of(
                tool,
                input,
            ),
{
    let t = exec_tools();
    assert(t[0] == "bash"@ && t[1] == "shell"@ && t[2] == "terminal"@ && t[3] == "exec"@ && t[4]
        == "run_command"@ && t[5] == "unsafe_shell"@);
}

} // verus!
