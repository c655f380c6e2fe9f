//! The plan of a direct SSH action on a Vault SSH account: the exact target
//! that the account binds, the risk and description of each SSH action, and
//! the broker-owned policy that comes out of both.
use vstd::prelude::*;
use crate::authz_rules::{utf8_len, utf8_len_within};
use crate::direct_policy::{
    is_input_insufficient, is_invalid_parameters, is_rule_unavailable, remote_parent, spec_remote_parent,
    spec_risk_name, spec_ssh_account_label, spec_valid_direct_remote_path, ssh_account_label, trim, trimmed,
    risk_name, is_unicode_whitespace, valid_direct_remote_path,
};
use crate::error::AgentBrokerError;
use crate::http_path::AgentRiskTier;
use crate::http_safety::ascii_lowercase;
use crate::ids::{parse_uuid, uuid_parse};
use crate::json::{json_view, JsonValue, JsonView};
use crate::text::{concat, copy_string, decimal, decimal_text, from_chars, str_eq, to_chars};

verus! {

broadcast use vstd::string::group_string_axioms;

/// The longest SSH host name that a direct action accepts, in bytes.
pub const MAX_SSH_HOST_BYTES: usize = 253;

/// The most output bytes that a direct SSH action returns.
pub const MAX_DIRECT_SSH_OUTPUT_BYTES: usize = 4096;

/// A fixed tunnel that an SSH connector definition allows.
#[derive(Clone, Debug)]
pub struct AgentSshTunnelPolicy {
    pub name: String,
    pub local_host: String,
    pub local_port: u16,
    pub destination_host: String,
    pub destination_port: u16,
    pub max_connections: u32,
    pub ttl_millis: u64,
    pub risk: AgentRiskTier,
}

/// The risk and description of one SSH action, with the remote paths it may
/// touch and the tunnel it opens.
#[derive(Debug)]
pub struct DirectSshActionPolicy {
    pub risk: String,
    pub action_display: String,
    pub remote_path_prefixes: Vec<String>,
    pub connector_ref: Option<u128>,
    pub tunnel: Option<AgentSshTunnelPolicy>,
}

/// The exact SSH endpoint of a Vault SSH account.
#[derive(Debug)]
pub struct SshTargetPlan {
    pub host: String,
    pub port: u16,
    pub username: String,
}

/// The broker-owned plan of a direct SSH action.
#[derive(Clone, Debug)]
pub struct AgentDirectSshPolicy {
    pub account_ref: u128,
    pub account_label: String,
    pub environment: String,
    pub tool: String,
    pub risk: String,
    pub action_display: String,
    pub host: String,
    pub port: u16,
    pub username: String,
    pub host_key_sha256: String,
    pub target_digest: String,
    pub approved_display: String,
    pub max_output_bytes: usize,
    pub remote_path_prefixes: Vec<String>,
    pub connector_ref: Option<u128>,
    pub tunnel: Option<AgentSshTunnelPolicy>,
}

/// What an SSH action needs to know from outside its rule before it can be
/// decided.
#[derive(Debug)]
pub enum SshActionLookup {
    Nothing,
    /// The risk and description of the command in the parameters.
    CommandPolicy,
    /// The details of the public-key record `key_ref`.
    PublicKey { key_ref: u128 },
    /// Whether `alias` is a valid OpenSSH host alias.
    HostAlias { alias: String },
    /// The fixed tunnel of the account named `endpoint`.
    Tunnel { endpoint: String },
}

/// The answer to an `SshActionLookup`.
#[derive(Debug)]
pub enum SshActionAnswer {
    Nothing,
    CommandPolicy(Result<(AgentRiskTier, String), AgentBrokerError>),
    /// `None` when the record could not be read.
    PublicKey(Option<JsonValue>),
    HostAlias(bool),
    /// The connector definition and its tunnel, or why none matches.
    Tunnel(Result<(u128, AgentSshTunnelPolicy), AgentBrokerError>),
}

// ----------------------------------------------------------------------------
// Specification
// ----------------------------------------------------------------------------

/// The UUID in the string parameter `field`.
pub open spec fn uuid_parameter(p: JsonValue, field: Seq<char>) -> Option<u128> {
    match p.spec_get_str(field) {
        Some(t) => uuid_parse(t),
        None => None,
    }
}

/// The terminal type that a PTY action asks for.
pub open spec fn requested_terminal(p: JsonValue) -> Seq<char> {
    match p.spec_get_str("terminal"@) {
        Some(t) => t,
        None => "xterm-256color"@,
    }
}

/// The label of a public-key record: its trimmed title, else `SSH key`.
pub open spec fn public_key_label(k: JsonValue) -> Seq<char> {
    match k.spec_get_str("title"@) {
        Some(t) => if trimmed(t).len() > 0 {
            trimmed(t)
        } else {
            "SSH key"@
        },
        None => "SSH key"@,
    }
}

/// The description of opening a fixed tunnel.
pub open spec fn tunnel_display(t: AgentSshTunnelPolicy) -> Seq<char> {
    "打开固定隧道 "@ + t.name@ + " → "@ + t.destination_host@ + ":"@ + decimal(t.destination_port as nat) + "（最多 "@
        + decimal(t.max_connections as nat) + " 条连接，"@ + decimal((t.ttl_millis / 1000) as nat) + " 秒）"@
}

/// What an SSH action needs to know before it is decided.
pub open spec fn lookup_holds(l: SshActionLookup, tool: Seq<char>, p: JsonValue) -> bool {
    if tool == "vaultmesh_ssh_exec"@ {
        l is CommandPolicy
    } else if tool == "vaultmesh_ssh_public_key_install"@ && uuid_parameter(p, "publicKeyRef"@) is Some {
        l matches SshActionLookup::PublicKey { key_ref } && key_ref == uuid_parameter(p, "publicKeyRef"@)->0
    } else if tool == "vaultmesh_ssh_host_setup"@ && p.spec_get_str("alias"@) is Some {
        l matches SshActionLookup::HostAlias { alias } && alias@ == p.spec_get_str("alias"@)->0
    } else if tool == "vaultmesh_ssh_tunnel_open"@ && p.spec_get_str("endpoint"@) is Some {
        l matches SshActionLookup::Tunnel { endpoint } && endpoint@ == p.spec_get_str("endpoint"@)->0
    } else {
        l is Nothing
    }
}

/// What the rule of an SSH action decides.
pub enum SshActionCheck {
    Allowed {
        risk: Seq<char>,
        display: Seq<char>,
        prefixes: Seq<Seq<char>>,
        connector_ref: Option<u128>,
        tunnel: Option<AgentSshTunnelPolicy>,
    },
    Failed { error: AgentBrokerError },
    InvalidParameters,
    InputInsufficient { fields: Seq<Seq<char>> },
    RuleUnavailable { tool: Seq<char> },
    Internal,
}

/// An allowed action with a fixed risk and no paths or tunnel.
pub open spec fn fixed_action(risk: Seq<char>, display: Seq<char>) -> SshActionCheck {
    SshActionCheck::Allowed { risk, display, prefixes: seq![], connector_ref: None, tunnel: None }
}

/// The risk and description of an SSH action, given the answer to its lookup.
pub open spec fn spec_direct_ssh_action(tool: Seq<char>, p: JsonValue, answer: SshActionAnswer) -> SshActionCheck {
    if tool == "vaultmesh_ssh_exec"@ {
        match answer {
            SshActionAnswer::CommandPolicy(Ok((risk, display))) => fixed_action(spec_risk_name(risk), display@),
            SshActionAnswer::CommandPolicy(Err(e)) => SshActionCheck::Failed { error: e },
            _ => SshActionCheck::Internal,
        }
    } else if tool == "vaultmesh_local_file_select"@ {
        if p.spec_get_str("purpose"@) != Some("ssh-upload"@) {
            SshActionCheck::InvalidParameters
        } else {
            fixed_action("R2"@, "选择供 SSH 上传使用的本地文件"@)
        }
    } else if tool == "vaultmesh_result_save"@ {
        if uuid_parameter(p, "resultRef"@) is None {
            SshActionCheck::InvalidParameters
        } else {
            fixed_action("R2"@, "保存 SSH 下载结果"@)
        }
    } else if tool == "vaultmesh_ssh_upload"@ || tool == "vaultmesh_ssh_download"@ {
        let upload = tool == "vaultmesh_ssh_upload"@;
        match p.spec_get_str("remotePath"@) {
            Some(rp) => if !spec_valid_direct_remote_path(rp) {
                SshActionCheck::InvalidParameters
            } else if upload && uuid_parameter(p, "fileRef"@) is None {
                SshActionCheck::InvalidParameters
            } else {
                SshActionCheck::Allowed {
                    risk: if upload { "R2"@ } else { "R1"@ },
                    display: (if upload { "上传到"@ } else { "下载"@ }) + " "@ + rp,
                    prefixes: seq![if upload { spec_remote_parent(rp) } else { rp }],
                    connector_ref: None,
                    tunnel: None,
                }
            },
            None => SshActionCheck::InvalidParameters,
        }
    } else if tool == "vaultmesh_ssh_public_key_install"@ {
        if uuid_parameter(p, "publicKeyRef"@) is None {
            SshActionCheck::InvalidParameters
        } else {
            match answer {
                SshActionAnswer::PublicKey(None) => SshActionCheck::InputInsufficient { fields: seq!["ssh.publicKeyRef"@] },
                SshActionAnswer::PublicKey(Some(k)) => if k.spec_get_str("recordKind"@) != Some("key"@)
                    || k.spec_get("hasPublicKey"@) != Some(JsonValue::Bool(true)) {
                    SshActionCheck::InputInsufficient { fields: seq!["ssh.publicKeyRef (public-key record)"@] }
                } else {
                    fixed_action("R2"@, "安装公钥："@ + public_key_label(k))
                },
                _ => SshActionCheck::Internal,
            }
        }
    } else if tool == "vaultmesh_ssh_host_setup"@ {
        match p.spec_get_str("alias"@) {
            None => SshActionCheck::InvalidParameters,
            Some(alias) => match answer {
                SshActionAnswer::HostAlias(true) => fixed_action(
                    "R3"@,
                    "配置持久 OpenSSH 主机别名（当前 OS 用户进程可直接使用）："@ + alias,
                ),
                SshActionAnswer::HostAlias(false) => SshActionCheck::InvalidParameters,
                _ => SshActionCheck::Internal,
            },
        }
    } else if tool == "vaultmesh_ssh_pty_open"@ {
        let t = requested_terminal(p);
        if t != "xterm-256color"@ && t != "xterm"@ && t != "vt100"@ {
            SshActionCheck::InvalidParameters
        } else {
            fixed_action("R3"@, "打开独占 SSH PTY（"@ + t + "）"@)
        }
    } else if tool == "vaultmesh_ssh_tunnel_open"@ {
        match p.spec_get_str("endpoint"@) {
            None => SshActionCheck::InputInsufficient { fields: seq!["ssh.tunnel.endpoint"@] },
            Some(_) => match answer {
                SshActionAnswer::Tunnel(Ok((connector_ref, t))) => SshActionCheck::Allowed {
                    risk: "R3"@,
                    display: tunnel_display(t),
                    prefixes: seq![],
                    connector_ref: Some(connector_ref),
                    tunnel: Some(t),
                },
                SshActionAnswer::Tunnel(Err(e)) => SshActionCheck::Failed { error: e },
                _ => SshActionCheck::Internal,
            },
        }
    } else {
        SshActionCheck::RuleUnavailable { tool }
    }
}

/// `r` is what `c` decides.
pub open spec fn ssh_action_holds(r: Result<DirectSshActionPolicy, AgentBrokerError>, c: SshActionCheck) -> bool {
    match c {
        SshActionCheck::Allowed { risk, display, prefixes, connector_ref, tunnel } => r matches Ok(a) && a.risk@ == risk
            && a.action_display@ == display && a.remote_path_prefixes@.map_values(|s: String| s@) == prefixes
            && a.connector_ref == connector_ref && a.tunnel == tunnel,
        SshActionCheck::Failed { error } => r matches Err(e) && e == error,
        SshActionCheck::InvalidParameters => r matches Err(e) && is_invalid_parameters(e),
        SshActionCheck::InputInsufficient { fields } => r matches Err(e) && is_input_insufficient(e, fields),
        SshActionCheck::RuleUnavailable { tool } => r matches Err(e) && is_rule_unavailable(e, "ssh"@, tool),
        SshActionCheck::Internal => r matches Err(e) && e.code@ == "broker-unavailable"@,
    }
}

/// A Unicode control character (`char::is_control`).
pub open spec fn is_control_char(c: char) -> bool {
    (c as u32) <= 0x1f || (0x7f <= (c as u32) && (c as u32) <= 0x9f)
}

/// A host that a direct SSH action may connect to: at most 253 bytes, no
/// `/`, `\` or `@`, no white space and no control character.
pub open spec fn valid_ssh_host(h: Seq<char>) -> bool {
    &&& utf8_len(h) <= MAX_SSH_HOST_BYTES
    &&& forall|i: int| 0 <= i < h.len() ==> {
        let c = #[trigger] h[i];
        c != '/' && c != '\\' && c != '@' && !is_unicode_whitespace(c) && !is_control_char(c)
    }
}

/// A trimmed, non-empty string member.
pub open spec fn present_text(d: JsonValue, key: Seq<char>) -> Option<Seq<char>> {
    match d.spec_get_str(key) {
        Some(t) => if trimmed(t).len() > 0 {
            Some(trimmed(t))
        } else {
            None
        },
        None => None,
    }
}

/// The SSH port of an account: an integer from 1 to 65535.
pub open spec fn ssh_port(d: JsonValue) -> Option<u16> {
    match d.spec_get("port"@) {
        Some(JsonValue::Integer(n)) => if 0 < n <= 65535 {
            Some(n as u16)
        } else {
            None
        },
        _ => None,
    }
}

/// What an SSH account lacks for a direct action, in the order reported.
pub open spec fn ssh_missing_fields(d: JsonValue) -> Seq<Seq<char>> {
    (if d.spec_get("masterPasswordReprompt"@) == Some(JsonValue::Bool(true)) {
        seq!["ssh.masterPasswordReprompt=false"@]
    } else {
        seq![]
    }) + (if d.spec_get_str("recordKind"@) != Some("account"@) {
        seq!["ssh.recordKind=account"@]
    } else {
        seq![]
    }) + (if present_text(d, "host"@) is None {
        seq!["ssh.host"@]
    } else {
        seq![]
    }) + (if present_text(d, "username"@) is None {
        seq!["ssh.username"@]
    } else {
        seq![]
    }) + (if ssh_port(d) is None {
        seq!["ssh.port"@]
    } else {
        seq![]
    })
}

/// What an SSH account decides for a direct action.
pub enum SshTargetCheck {
    Locked,
    Missing { fields: Seq<Seq<char>> },
    Ready { host: Seq<char>, port: u16, username: Seq<char> },
}

/// The exact endpoint of an SSH account: its host in lower case, its port
/// and its user, all present and the host valid.
pub open spec fn spec_direct_ssh_target(unlocked: bool, detail: Option<JsonValue>) -> SshTargetCheck {
    if !unlocked {
        SshTargetCheck::Locked
    } else {
        match detail {
            None => SshTargetCheck::Missing { fields: seq!["ssh"@] },
            Some(d) => {
                let missing = ssh_missing_fields(d);
                if missing.len() > 0 {
                    SshTargetCheck::Missing { fields: missing }
                } else {
                    let host = ascii_lowercase(present_text(d, "host"@)->0);
                    if !valid_ssh_host(host) {
                        SshTargetCheck::Missing { fields: seq!["ssh.host (valid exact SSH host)"@] }
                    } else {
                        SshTargetCheck::Ready { host, port: ssh_port(d)->0, username: present_text(d, "username"@)->0 }
                    }
                }
            },
        }
    }
}

/// `r` is what `c` decides.
pub open spec fn ssh_target_holds(r: Result<SshTargetPlan, AgentBrokerError>, c: SshTargetCheck) -> bool {
    match c {
        SshTargetCheck::Locked => r matches Err(e) && e.code@ == "vault-locked"@,
        SshTargetCheck::Missing { fields } => r matches Err(e) && is_input_insufficient(e, fields),
        SshTargetCheck::Ready { host, port, username } => r matches Ok(t) && t.host@ == host && t.port == port
            && t.username@ == username,
    }
}

/// The members of the object whose canonical digest binds a direct SSH
/// action to its endpoint, host key and tunnel.
pub open spec fn ssh_target_binding(
    target: SshTargetPlan,
    host_key_sha256: Seq<char>,
    tunnel: Option<AgentSshTunnelPolicy>,
) -> JsonView {
    let base = seq![
        ("connector"@, JsonView::String("ssh"@)),
        ("host"@, JsonView::String(target.host@)),
        ("port"@, JsonView::Integer(target.port as i128)),
        ("username"@, JsonView::String(target.username@)),
        ("hostKeySha256"@, JsonView::String(host_key_sha256)),
    ];
    JsonView::Object(
        match tunnel {
            None => base,
            Some(t) => base.push(
                (
                    "tunnel"@,
                    JsonView::Object(
                        seq![
                            ("name"@, JsonView::String(t.name@)),
                            ("localHost"@, JsonView::String(t.local_host@)),
                            ("localPort"@, JsonView::Integer(t.local_port as i128)),
                            ("destinationHost"@, JsonView::String(t.destination_host@)),
                            ("destinationPort"@, JsonView::Integer(t.destination_port as i128)),
                            ("maxConnections"@, JsonView::Integer(t.max_connections as i128)),
                            ("ttlMillis"@, JsonView::Integer(t.ttl_millis as i128)),
                        ],
                    ),
                ),
            ),
        },
    )
}

/// How the approval window shows a direct SSH target.
pub open spec fn ssh_approved_display(
    target: SshTargetPlan,
    host_key_sha256: Seq<char>,
    tunnel: Option<AgentSshTunnelPolicy>,
) -> Seq<char> {
    let base = target.username@ + "@"@ + target.host@ + ":"@ + decimal(target.port as nat) + " · "@ + host_key_sha256;
    match tunnel {
        None => base,
        Some(t) => base + " → "@ + t.destination_host@ + ":"@ + decimal(t.destination_port as nat),
    }
}

// ----------------------------------------------------------------------------
// Executable functions
// ----------------------------------------------------------------------------

fn invalid_parameters(message: &'static str) -> (e: AgentBrokerError)
    ensures
        is_invalid_parameters(e),
{
    AgentBrokerError::new("invalid-parameters", message, false)
}

fn missing_one(name: &str) -> (e: AgentBrokerError)
    ensures
        is_input_insufficient(e, seq![name@]),
{
    let fields = vec![copy_string(name)];
    proof {
        assert(fields@.map_values(|s: String| s@) =~= seq![name@]);
    }
    AgentBrokerError::action_input_insufficient(fields)
}

fn fixed(risk: &str, display: String) -> (r: Result<DirectSshActionPolicy, AgentBrokerError>)
    ensures
        ssh_action_holds(r, fixed_action(risk@, display@)),
{
    let prefixes: Vec<String> = Vec::new();
    proof {
        assert(prefixes@.map_values(|s: String| s@) =~= seq![]);
    }
    Ok(DirectSshActionPolicy {
        risk: copy_string(risk),
        action_display: display,
        remote_path_prefixes: prefixes,
        connector_ref: None,
        tunnel: None,
    })
}

proof fn reveal_ssh_tools()
    ensures
        "vaultmesh_ssh_exec"@ != "vaultmesh_local_file_select"@,
        "vaultmesh_ssh_exec"@ != "vaultmesh_result_save"@,
        "vaultmesh_ssh_exec"@ != "vaultmesh_ssh_upload"@,
        "vaultmesh_ssh_exec"@ != "vaultmesh_ssh_download"@,
        "vaultmesh_ssh_exec"@ != "vaultmesh_ssh_public_key_install"@,
        "vaultmesh_ssh_exec"@ != "vaultmesh_ssh_host_setup"@,
        "vaultmesh_ssh_exec"@ != "vaultmesh_ssh_pty_open"@,
        "vaultmesh_ssh_exec"@ != "vaultmesh_ssh_tunnel_open"@,
        "vaultmesh_local_file_select"@ != "vaultmesh_result_save"@,
        "vaultmesh_local_file_select"@ != "vaultmesh_ssh_upload"@,
        "vaultmesh_local_file_select"@ != "vaultmesh_ssh_download"@,
        "vaultmesh_local_file_select"@ != "vaultmesh_ssh_public_key_install"@,
        "vaultmesh_local_file_select"@ != "vaultmesh_ssh_host_setup"@,
        "vaultmesh_local_file_select"@ != "vaultmesh_ssh_pty_open"@,
        "vaultmesh_local_file_select"@ != "vaultmesh_ssh_tunnel_open"@,
        "vaultmesh_result_save"@ != "vaultmesh_ssh_upload"@,
        "vaultmesh_result_save"@ != "vaultmesh_ssh_download"@,
        "vaultmesh_result_save"@ != "vaultmesh_ssh_public_key_install"@,
        "vaultmesh_result_save"@ != "vaultmesh_ssh_host_setup"@,
        "vaultmesh_result_save"@ != "vaultmesh_ssh_pty_open"@,
        "vaultmesh_result_save"@ != "vaultmesh_ssh_tunnel_open"@,
        "vaultmesh_ssh_upload"@ != "vaultmesh_ssh_download"@,
        "vaultmesh_ssh_upload"@ != "vaultmesh_ssh_public_key_install"@,
        "vaultmesh_ssh_upload"@ != "vaultmesh_ssh_host_setup"@,
        "vaultmesh_ssh_upload"@ != "vaultmesh_ssh_pty_open"@,
        "vaultmesh_ssh_upload"@ != "vaultmesh_ssh_tunnel_open"@,
        "vaultmesh_ssh_download"@ != "vaultmesh_ssh_public_key_install"@,
        "vaultmesh_ssh_download"@ != "vaultmesh_ssh_host_setup"@,
        "vaultmesh_ssh_download"@ != "vaultmesh_ssh_pty_open"@,
        "vaultmesh_ssh_download"@ != "vaultmesh_ssh_tunnel_open"@,
        "vaultmesh_ssh_public_key_install"@ != "vaultmesh_ssh_host_setup"@,
        "vaultmesh_ssh_public_key_install"@ != "vaultmesh_ssh_pty_open"@,
        "vaultmesh_ssh_public_key_install"@ != "vaultmesh_ssh_tunnel_open"@,
        "vaultmesh_ssh_host_setup"@ != "vaultmesh_ssh_pty_open"@,
        "vaultmesh_ssh_host_setup"@ != "vaultmesh_ssh_tunnel_open"@,
        "vaultmesh_ssh_pty_open"@ != "vaultmesh_ssh_tunnel_open"@,
{
    reveal_strlit("vaultmesh_ssh_exec");
    reveal_strlit("vaultmesh_local_file_select");
    reveal_strlit("vaultmesh_result_save");
    reveal_strlit("vaultmesh_ssh_upload");
    reveal_strlit("vaultmesh_ssh_download");
    reveal_strlit("vaultmesh_ssh_public_key_install");
    reveal_strlit("vaultmesh_ssh_host_setup");
    reveal_strlit("vaultmesh_ssh_pty_open");
    reveal_strlit("vaultmesh_ssh_tunnel_open");
    assert("vaultmesh_ssh_exec"@.len() == 18);
    assert("vaultmesh_local_file_select"@.len() == 27);
    assert("vaultmesh_result_save"@.len() == 21);
    assert("vaultmesh_ssh_upload"@.len() == 20);
    assert("vaultmesh_ssh_download"@.len() == 22);
    assert("vaultmesh_ssh_public_key_install"@.len() == 32);
    assert("vaultmesh_ssh_host_setup"@.len() == 24);
    assert("vaultmesh_ssh_pty_open"@.len() == 22);
    assert("vaultmesh_ssh_tunnel_open"@.len() == 25);
    assert("vaultmesh_ssh_download"@[14] != "vaultmesh_ssh_pty_open"@[14]);
}

pub(crate) fn uuid_param(p: &JsonValue, field: &str) -> (r: Option<u128>)
    ensures
        r == uuid_parameter(*p, field@),
{
    match p.get_str(field) {
        Some(t) => parse_uuid(t),
        None => None,
    }
}

/// What an SSH action needs to know from outside its rule: the command
/// policy for `vaultmesh_ssh_exec`, the public-key record, the validity of
/// the host alias, or the fixed tunnel of the endpoint.
pub fn ssh_action_lookup(tool: &str, parameters: &JsonValue) -> (l: SshActionLookup)
    ensures
        lookup_holds(l, tool@, *parameters),
{
    proof {
        reveal_ssh_tools();
    }
    if str_eq(tool, "vaultmesh_ssh_exec") {
        return SshActionLookup::CommandPolicy;
    }
    if str_eq(tool, "vaultmesh_ssh_public_key_install") {
        if let Some(key_ref) = uuid_param(parameters, "publicKeyRef") {
            return SshActionLookup::PublicKey { key_ref };
        }
        return SshActionLookup::Nothing;
    }
    if str_eq(tool, "vaultmesh_ssh_host_setup") {
        if let Some(alias) = parameters.get_str("alias") {
            return SshActionLookup::HostAlias { alias: copy_string(alias) };
        }
        return SshActionLookup::Nothing;
    }
    if str_eq(tool, "vaultmesh_ssh_tunnel_open") {
        if let Some(endpoint) = parameters.get_str("endpoint") {
            return SshActionLookup::Tunnel { endpoint: copy_string(endpoint) };
        }
        return SshActionLookup::Nothing;
    }
    SshActionLookup::Nothing
}

fn tunnel_text(t: &AgentSshTunnelPolicy) -> (r: String)
    ensures
        r@ == tunnel_display(*t),
{
    let a = concat("打开固定隧道 ", t.name.as_str());
    let b = concat(a.as_str(), " → ");
    let c = concat(b.as_str(), t.destination_host.as_str());
    let d = concat(c.as_str(), ":");
    let port = decimal_text(t.destination_port as u64);
    let e = concat(d.as_str(), port.as_str());
    let f = concat(e.as_str(), "（最多 ");
    let count = decimal_text(t.max_connections as u64);
    let g = concat(f.as_str(), count.as_str());
    let h = concat(g.as_str(), " 条连接，");
    let secs = decimal_text(t.ttl_millis / 1000);
    let i = concat(h.as_str(), secs.as_str());
    concat(i.as_str(), " 秒）")
}

fn transfer_action(tool: &str, parameters: &JsonValue) -> (r: Result<DirectSshActionPolicy, AgentBrokerError>)
    requires
        tool@ == "vaultmesh_ssh_upload"@ || tool@ == "vaultmesh_ssh_download"@,
    ensures
        ssh_action_holds(r, spec_direct_ssh_action(tool@, *parameters, SshActionAnswer::Nothing)),
{
    proof {
        reveal_ssh_tools();
    }
    let upload = str_eq(tool, "vaultmesh_ssh_upload");
    let remote_path = match parameters.get_str("remotePath") {
        Some(p) => p,
        None => return Err(invalid_parameters("The SSH remote path is invalid.")),
    };
    if !valid_direct_remote_path(remote_path) {
        return Err(invalid_parameters("The SSH remote path is invalid."));
    }
    if upload && uuid_param(parameters, "fileRef").is_none() {
        return Err(invalid_parameters("An SSH action handle is invalid."));
    }
    let prefix = if upload { remote_parent(remote_path) } else { copy_string(remote_path) };
    let verb = if upload { "上传到" } else { "下载" };
    let head = concat(verb, " ");
    let display = concat(head.as_str(), remote_path);
    let prefixes = vec![prefix];
    proof {
        reveal_strlit("vaultmesh_ssh_upload");
        reveal_strlit("vaultmesh_ssh_download");
        assert(upload == (tool@ == "vaultmesh_ssh_upload"@));
        assert(prefixes@.map_values(|s: String| s@) =~= seq![if upload { spec_remote_parent(remote_path@) } else { remote_path@ }]);
    }
    Ok(DirectSshActionPolicy {
        risk: if upload { copy_string("R2") } else { copy_string("R1") },
        action_display: display,
        remote_path_prefixes: prefixes,
        connector_ref: None,
        tunnel: None,
    })
}

fn public_key_action(answer: SshActionAnswer) -> (r: Result<DirectSshActionPolicy, AgentBrokerError>)
    ensures
        ssh_action_holds(
            r,
            match answer {
                SshActionAnswer::PublicKey(None) => SshActionCheck::InputInsufficient { fields: seq!["ssh.publicKeyRef"@] },
                SshActionAnswer::PublicKey(Some(k)) => if k.spec_get_str("recordKind"@) != Some("key"@)
                    || k.spec_get("hasPublicKey"@) != Some(JsonValue::Bool(true)) {
                    SshActionCheck::InputInsufficient { fields: seq!["ssh.publicKeyRef (public-key record)"@] }
                } else {
                    fixed_action("R2"@, "安装公钥："@ + public_key_label(k))
                },
                _ => SshActionCheck::Internal,
            },
        ),
{
    let key = match answer {
        SshActionAnswer::PublicKey(Some(k)) => k,
        SshActionAnswer::PublicKey(None) => return Err(missing_one("ssh.publicKeyRef")),
        _ => return Err(AgentBrokerError::internal()),
    };
    let is_key = match key.get_str("recordKind") {
        Some(kind) => str_eq(kind, "key"),
        None => false,
    };
    let has_public = match key.get("hasPublicKey") {
        Some(JsonValue::Bool(b)) => *b,
        _ => false,
    };
    if !is_key || !has_public {
        return Err(missing_one("ssh.publicKeyRef (public-key record)"));
    }
    let label = match key.get_str("title") {
        Some(t) => {
            let trimmed_title = trim(t);
            if trimmed_title.as_str().is_empty() {
                copy_string("SSH key")
            } else {
                trimmed_title
            }
        },
        None => copy_string("SSH key"),
    };
    fixed("R2", concat("安装公钥：", label.as_str()))
}

/// The risk and description of an SSH action, from its parameters and the
/// answer to its lookup (`ssh_action_lookup`); an answer of the wrong kind is
/// a broker fault.
pub fn direct_ssh_action_policy(
    tool: &str,
    parameters: &JsonValue,
    answer: SshActionAnswer,
) -> (r: Result<DirectSshActionPolicy, AgentBrokerError>)
    ensures
        ssh_action_holds(r, spec_direct_ssh_action(tool@, *parameters, answer)),
{
    if str_eq(tool, "vaultmesh_ssh_exec") {
        return match answer {
            SshActionAnswer::CommandPolicy(Ok((risk, display))) => fixed(risk_name(risk).as_str(), display),
            SshActionAnswer::CommandPolicy(Err(e)) => Err(e),
            _ => Err(AgentBrokerError::internal()),
        };
    }
    if str_eq(tool, "vaultmesh_local_file_select") {
        let purpose_ok = match parameters.get_str("purpose") {
            Some(p) => str_eq(p, "ssh-upload"),
            None => false,
        };
        if !purpose_ok {
            return Err(invalid_parameters("The local file purpose is invalid for this SSH account."));
        }
        return fixed("R2", copy_string("选择供 SSH 上传使用的本地文件"));
    }
    if str_eq(tool, "vaultmesh_result_save") {
        if uuid_param(parameters, "resultRef").is_none() {
            return Err(invalid_parameters("An SSH action handle is invalid."));
        }
        return fixed("R2", copy_string("保存 SSH 下载结果"));
    }
    if str_eq(tool, "vaultmesh_ssh_upload") || str_eq(tool, "vaultmesh_ssh_download") {
        return transfer_action(tool, parameters);
    }
    if str_eq(tool, "vaultmesh_ssh_public_key_install") {
        if uuid_param(parameters, "publicKeyRef").is_none() {
            return Err(invalid_parameters("An SSH action handle is invalid."));
        }
        return public_key_action(answer);
    }
    if str_eq(tool, "vaultmesh_ssh_host_setup") {
        let alias = match parameters.get_str("alias") {
            Some(a) => a,
            None => return Err(invalid_parameters("The OpenSSH host alias is invalid.")),
        };
        return match answer {
            SshActionAnswer::HostAlias(true) => fixed(
                "R3",
                concat("配置持久 OpenSSH 主机别名（当前 OS 用户进程可直接使用）：", alias),
            ),
            SshActionAnswer::HostAlias(false) => Err(invalid_parameters("The OpenSSH host alias is invalid.")),
            _ => Err(AgentBrokerError::internal()),
        };
    }
    if str_eq(tool, "vaultmesh_ssh_pty_open") {
        let terminal = match parameters.get_str("terminal") {
            Some(t) => t,
            None => "xterm-256color",
        };
        if !str_eq(terminal, "xterm-256color") && !str_eq(terminal, "xterm") && !str_eq(terminal, "vt100") {
            return Err(invalid_parameters("The SSH terminal type is invalid."));
        }
        let head = concat("打开独占 SSH PTY（", terminal);
        return fixed("R3", concat(head.as_str(), "）"));
    }
    if str_eq(tool, "vaultmesh_ssh_tunnel_open") {
        if parameters.get_str("endpoint").is_none() {
            return Err(missing_one("ssh.tunnel.endpoint"));
        }
        return match answer {
            SshActionAnswer::Tunnel(Ok((connector_ref, tunnel))) => {
                let display = tunnel_text(&tunnel);
                let prefixes: Vec<String> = Vec::new();
                proof {
                    assert(prefixes@.map_values(|s: String| s@) =~= seq![]);
                }
                Ok(DirectSshActionPolicy {
                    risk: copy_string("R3"),
                    action_display: display,
                    remote_path_prefixes: prefixes,
                    connector_ref: Some(connector_ref),
                    tunnel: Some(tunnel),
                })
            },
            SshActionAnswer::Tunnel(Err(e)) => Err(e),
            _ => Err(AgentBrokerError::internal()),
        };
    }
    Err(AgentBrokerError::action_rule_unavailable("ssh", tool))
}

fn present_member(d: &JsonValue, key: &str) -> (r: Option<String>)
    ensures
        match r {
            Some(t) => present_text(*d, key@) == Some(t@),
            None => present_text(*d, key@) is None,
        },
{
    match d.get_str(key) {
        Some(t) => {
            let v = trim(t);
            if v.as_str().is_empty() {
                None
            } else {
                Some(v)
            }
        },
        None => None,
    }
}

fn port_member(d: &JsonValue) -> (r: Option<u16>)
    ensures
        r == ssh_port(*d),
{
    match d.get("port") {
        Some(JsonValue::Integer(n)) => if *n > 0 && *n <= 65535 {
            Some(*n as u16)
        } else {
            None
        },
        _ => None,
    }
}

pub(crate) fn lowercase_ascii(s: &str) -> (r: String)
    ensures
        r@ == ascii_lowercase(s@),
{
    let chars = to_chars(s);
    let mut out: Vec<char> = Vec::new();
    let mut i: usize = 0;
    while i < chars.len()
        invariant
            i <= chars.len(),
            chars@ == s@,
            out@ == ascii_lowercase(s@.take(i as int)),
        decreases chars.len() - i,
    {
        let c = chars[i];
        let u = c as u32;
        let lower = if u >= 65 && u <= 90 {
            let b: u8 = u as u8;
            (b + 32) as char
        } else {
            c
        };
        out.push(lower);
        assert(out@ =~= ascii_lowercase(s@.take(i + 1)));
        i += 1;
    }
    assert(s@.take(chars@.len() as int) =~= s@);
    from_chars(&out)
}

fn host_is_valid(host: &str) -> (r: bool)
    ensures
        r == valid_ssh_host(host@),
{
    if !utf8_len_within(host, MAX_SSH_HOST_BYTES) {
        return false;
    }
    let chars = to_chars(host);
    let mut i: usize = 0;
    while i < chars.len()
        invariant
            i <= chars.len(),
            chars@ == host@,
            utf8_len(host@) <= MAX_SSH_HOST_BYTES,
            forall|k: int| 0 <= k < i ==> {
                let c = #[trigger] host@[k];
                c != '/' && c != '\\' && c != '@' && !is_unicode_whitespace(c) && !is_control_char(c)
            },
        decreases chars.len() - i,
    {
        let c = chars[i];
        let u = c as u32;
        let space = (u >= 0x09 && u <= 0x0d) || u == 0x20 || u == 0x85 || u == 0xa0 || u == 0x1680
            || (u >= 0x2000 && u <= 0x200a) || u == 0x2028 || u == 0x2029 || u == 0x202f || u == 0x205f || u == 0x3000;
        let control = u <= 0x1f || (u >= 0x7f && u <= 0x9f);
        if c == '/' || c == '\\' || c == '@' || space || control {
            return false;
        }
        i += 1;
    }
    true
}

/// Reads the exact SSH endpoint of an account from its details (`None` when
/// they could not be read): the trimmed host in lower case, the port and the
/// trimmed user name; refused while the Vault is locked, and when the account
/// lacks one of them, asks for the master password, is not an account
/// record, or has a host that is not one exact SSH host.
pub fn direct_ssh_target(unlocked: bool, detail: Option<&JsonValue>) -> (r: Result<SshTargetPlan, AgentBrokerError>)
    ensures
        ssh_target_holds(
            r,
            spec_direct_ssh_target(
                unlocked,
                match detail {
                    Some(d) => Some(*d),
                    None => None,
                },
            ),
        ),
{
    if !unlocked {
        return Err(AgentBrokerError::vault_locked());
    }
    let d = match detail {
        Some(d) => d,
        None => return Err(missing_one("ssh")),
    };
    let mut missing: Vec<String> = Vec::new();
    let reprompt = match d.get("masterPasswordReprompt") {
        Some(JsonValue::Bool(b)) => *b,
        _ => false,
    };
    if reprompt {
        missing.push(copy_string("ssh.masterPasswordReprompt=false"));
    }
    let account = match d.get_str("recordKind") {
        Some(k) => str_eq(k, "account"),
        None => false,
    };
    if !account {
        missing.push(copy_string("ssh.recordKind=account"));
    }
    let host = present_member(d, "host");
    if host.is_none() {
        missing.push(copy_string("ssh.host"));
    }
    let username = present_member(d, "username");
    if username.is_none() {
        missing.push(copy_string("ssh.username"));
    }
    let port = port_member(d);
    if port.is_none() {
        missing.push(copy_string("ssh.port"));
    }
    proof {
        assert(missing@.map_values(|s: String| s@) =~= ssh_missing_fields(*d));
    }
    if missing.len() > 0 {
        return Err(AgentBrokerError::action_input_insufficient(missing));
    }
    let (host, username, port) = match (host, username, port) {
        (Some(h), Some(u), Some(p)) => (h, u, p),
        _ => return Err(AgentBrokerError::action_input_insufficient(missing)),
    };
    let host = lowercase_ascii(host.as_str());
    if !host_is_valid(host.as_str()) {
        return Err(missing_one("ssh.host (valid exact SSH host)"));
    }
    Ok(SshTargetPlan { host, port, username })
}

fn text_member(key: &str, value: &str) -> (r: (String, JsonValue))
    ensures
        r.0@ == key@,
        json_view(r.1) == JsonView::String(value@),
{
    (copy_string(key), JsonValue::String(copy_string(value)))
}

fn integer_member(key: &str, value: u64) -> (r: (String, JsonValue))
    ensures
        r.0@ == key@,
        json_view(r.1) == JsonView::Integer(value as i128),
{
    (copy_string(key), JsonValue::Integer(value as i128))
}

/// The object whose canonical digest binds a direct SSH action to its
/// endpoint, host key and tunnel.
pub fn direct_ssh_target_binding(
    target: &SshTargetPlan,
    host_key_sha256: &str,
    tunnel: Option<&AgentSshTunnelPolicy>,
) -> (r: JsonValue)
    ensures
        json_view(r) == ssh_target_binding(
            *target,
            host_key_sha256@,
            match tunnel {
                Some(t) => Some(*t),
                None => None,
            },
        ),
{
    let mut entries = vec![
        text_member("connector", "ssh"),
        text_member("host", target.host.as_str()),
        integer_member("port", target.port as u64),
        text_member("username", target.username.as_str()),
        text_member("hostKeySha256", host_key_sha256),
    ];
    let ghost t_opt = match tunnel {
        Some(t) => Some(*t),
        None => None::<AgentSshTunnelPolicy>,
    };
    let ghost want = ssh_target_binding(*target, host_key_sha256@, t_opt)->Object_0;
    if let Some(t) = tunnel {
        let inner_entries = vec![
            text_member("name", t.name.as_str()),
            text_member("localHost", t.local_host.as_str()),
            integer_member("localPort", t.local_port as u64),
            text_member("destinationHost", t.destination_host.as_str()),
            integer_member("destinationPort", t.destination_port as u64),
            integer_member("maxConnections", t.max_connections as u64),
            integer_member("ttlMillis", t.ttl_millis),
        ];
        let inner = JsonValue::Object(inner_entries);
        proof {
            if let JsonView::Object(es) = json_view(inner) {
                assert(es =~= want[5].1->Object_0);
            }
        }
        entries.push((copy_string("tunnel"), inner));
    }
    let r = JsonValue::Object(entries);
    proof {
        if let JsonView::Object(es) = json_view(r) {
            assert(es =~= want);
        }
    }
    r
}

fn endpoint_text(target: &SshTargetPlan, host_key_sha256: &str, tunnel: Option<&AgentSshTunnelPolicy>) -> (r: String)
    ensures
        r@ == ssh_approved_display(
            *target,
            host_key_sha256@,
            match tunnel {
                Some(t) => Some(*t),
                None => None,
            },
        ),
{
    let a = concat(target.username.as_str(), "@");
    let b = concat(a.as_str(), target.host.as_str());
    let c = concat(b.as_str(), ":");
    let port = decimal_text(target.port as u64);
    let d = concat(c.as_str(), port.as_str());
    let e = concat(d.as_str(), " · ");
    let base = concat(e.as_str(), host_key_sha256);
    match tunnel {
        None => base,
        Some(t) => {
            let f = concat(base.as_str(), " → ");
            let g = concat(f.as_str(), t.destination_host.as_str());
            let h = concat(g.as_str(), ":");
            let dport = decimal_text(t.destination_port as u64);
            concat(h.as_str(), dport.as_str())
        },
    }
}

/// The broker-owned plan of a direct SSH action: the account's endpoint and
/// verified host key, the action's risk, description, paths and tunnel, and
/// the digest of the target binding (`direct_ssh_target_binding`).
pub fn direct_ssh_policy(
    item_id: u128,
    tool: &str,
    detail: &JsonValue,
    target: SshTargetPlan,
    host_key_sha256: String,
    action: DirectSshActionPolicy,
    target_digest: String,
) -> (p: AgentDirectSshPolicy)
    ensures
        p.account_ref == item_id,
        p.account_label@ == spec_ssh_account_label(*detail, target.host@),
        p.environment@ == "default"@,
        p.tool@ == tool@,
        p.risk == action.risk,
        p.action_display == action.action_display,
        p.host == target.host,
        p.port == target.port,
        p.username == target.username,
        p.host_key_sha256 == host_key_sha256,
        p.target_digest == target_digest,
        p.approved_display@ == ssh_approved_display(target, host_key_sha256@, action.tunnel),
        p.max_output_bytes == MAX_DIRECT_SSH_OUTPUT_BYTES,
        p.remote_path_prefixes == action.remote_path_prefixes,
        p.connector_ref == action.connector_ref,
        p.tunnel == action.tunnel,
{
    let approved_display = endpoint_text(&target, host_key_sha256.as_str(), action.tunnel.as_ref());
    let account_label = ssh_account_label(detail, target.host.as_str());
    AgentDirectSshPolicy {
        account_ref: item_id,
        account_label,
        environment: copy_string("default"),
        tool: copy_string(tool),
        risk: action.risk,
        action_display: action.action_display,
        host: target.host,
        port: target.port,
        username: target.username,
        host_key_sha256,
        target_digest,
        approved_display,
        max_output_bytes: MAX_DIRECT_SSH_OUTPUT_BYTES,
        remote_path_prefixes: action.remote_path_prefixes,
        connector_ref: action.connector_ref,
        tunnel: action.tunnel,
    }
}

} // verus!
