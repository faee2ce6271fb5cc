//! The settings of a running gateway.

use vstd::prelude::*;

use crate::auth::{token_table, tokens_distinct, TokenMap};
use crate::config::{
    normalized, BackendConfig, BackendConfigView, Config, ConfigView, LangfuseConfig,
    LangfuseConfigView, ProcessorRule, ProcessorRuleView, ServerConfig, ServerConfigView,
};
use crate::seqs::views;
use crate::text::chars_of;

verus! {

/// The settings of a running gateway, which the admin UI changes.
#[derive(Debug)]
pub struct AppState {
    pub admin_password: String,
    pub token_map: TokenMap,
    pub langfuse_config: LangfuseConfig,
    pub backends: Vec<BackendConfig>,
    pub privacy_mode: bool,
    /// The server settings with which the gateway was started.
    pub server_config: ServerConfig,
    /// User-configured rules mapping (model, backend) → processor IDs.
    pub processor_rules: Vec<ProcessorRule>,
}

/// The model of `AppState`.
#[verifier::ext_equal]
pub struct AppStateView {
    pub admin_password: Seq<char>,
    pub token_map: Map<Seq<char>, Seq<char>>,
    pub langfuse_config: LangfuseConfigView,
    pub backends: Seq<BackendConfigView>,
    pub privacy_mode: bool,
    pub server_config: ServerConfigView,
    pub processor_rules: Seq<ProcessorRuleView>,
}

impl View for AppState {
    type V = AppStateView;

    open spec fn view(&self) -> AppStateView {
        AppStateView {
            admin_password: self.admin_password@,
            token_map: self.token_map@,
            langfuse_config: self.langfuse_config@,
            backends: views(self.backends@),
            privacy_mode: self.privacy_mode,
            server_config: self.server_config@,
            processor_rules: views(self.processor_rules@),
        }
    }
}

/// The settings with which a gateway starts.
pub open spec fn started(c: ConfigView, admin_password: Seq<char>) -> AppStateView {
    AppStateView {
        admin_password,
        token_map: token_table(c.tokens),
        langfuse_config: c.langfuse,
        backends: c.backends,
        privacy_mode: c.server.privacy_mode,
        server_config: c.server,
        processor_rules: c.processor_rules,
    }
}

/// The server settings that are saved: those with which the gateway was
/// started, and whether it is in privacy mode now.
pub open spec fn saved_server(s: AppStateView) -> ServerConfigView {
    ServerConfigView { privacy_mode: s.privacy_mode, ..s.server_config }
}

/// A configuration that holds the settings.  In what order the tokens stand is
/// left open.
pub open spec fn is_snapshot_of(c: ConfigView, s: AppStateView) -> bool {
    &&& c.ollama is None
    &&& c.backends == s.backends
    &&& c.langfuse == s.langfuse_config
    &&& token_table(c.tokens) == s.token_map
    &&& tokens_distinct(c.tokens)
    &&& c.server == saved_server(s)
    &&& c.processor_rules == s.processor_rules
}

impl AppState {
    /// The settings with which a gateway starts.
    pub fn start(config: Config, admin_password: String) -> (r: AppState)
        ensures
            r@ == started(config@, admin_password@),
    {
        let token_map = config.token_map();
        AppState {
            admin_password,
            token_map,
            langfuse_config: config.langfuse,
            backends: config.backends,
            privacy_mode: config.server.privacy_mode,
            server_config: config.server,
            processor_rules: config.processor_rules,
        }
    }

    /// The configuration to be saved.
    pub fn snapshot(&self) -> (r: Config)
        ensures
            is_snapshot_of(r@, self@),
    {
        let backends = self.backends.clone();
        let processor_rules = self.processor_rules.clone();
        assert(views(backends@) =~= views(self.backends@));
        assert(views(processor_rules@) =~= views(self.processor_rules@));
        let mut server = self.server_config.clone();
        server.privacy_mode = self.privacy_mode;
        Config {
            ollama: None,
            backends,
            langfuse: self.langfuse_config.clone(),
            tokens: self.token_map.entries(),
            server,
            processor_rules,
        }
    }
}

/// What was saved holds, once it is normalized, the tokens, backends, Langfuse
/// settings and rules that the gateway had, whether it was in privacy mode, and
/// the server settings with which it was started.  A gateway that is started from
/// it has the settings that it had when it was saved.
pub proof fn law_saved_settings_restored(c: ConfigView, s: AppStateView)
    requires
        is_snapshot_of(c, s),
    ensures
        token_table(normalized(c).tokens) == s.token_map,
        normalized(c).backends == s.backends,
        normalized(c).langfuse == s.langfuse_config,
        normalized(c).processor_rules == s.processor_rules,
        normalized(c).server.privacy_mode == s.privacy_mode,
        normalized(c).server == (ServerConfigView {
            privacy_mode: s.privacy_mode,
            ..s.server_config
        }),
        started(normalized(c), s.admin_password) == (AppStateView {
            server_config: saved_server(s),
            ..s
        }),
{
}

// ---------------------------------------------------------------------
// Ports

/// A decimal digit.
pub open spec fn is_digit(c: char) -> bool {
    '0' <= c <= '9'
}

/// The value of decimal digits.
pub open spec fn decimal(s: Seq<char>) -> nat
    decreases s.len(),
{
    if s.len() == 0 {
        0
    } else {
        decimal(s.drop_last()) * 10 + (s.last() as u32 - '0' as u32) as nat
    }
}

/// A number without the plus sign that may stand in front.
pub open spec fn without_plus(s: Seq<char>) -> Seq<char> {
    if s.len() > 0 && s[0] == '+' {
        s.skip(1)
    } else {
        s
    }
}

/// A number: digits, and at least one.
pub open spec fn is_number(s: Seq<char>) -> bool {
    s.len() > 0 && forall|i: int| 0 <= i < s.len() ==> is_digit(#[trigger] s[i])
}

/// The port that a text names: a number, with or without a plus sign in front,
/// whose value is a port.
pub open spec fn port_in(s: Seq<char>) -> Option<u16> {
    let digits = without_plus(s);
    if is_number(digits) && decimal(digits) <= u16::MAX {
        Some(decimal(digits) as u16)
    } else {
        None
    }
}

/// The port that a text names.
pub fn parse_port(s: &str) -> (r: Option<u16>)
    ensures
        r == port_in(s@),
{
    let c = chars_of(s);
    let start: usize = if c.len() > 0 && c[0] == '+' {
        1
    } else {
        0
    };
    let ghost digits = without_plus(s@);
    assert(digits =~= c@.skip(start as int));
    if start == c.len() {
        return None;
    }
    let mut value: u32 = 0;
    let mut too_big = false;
    let mut i: usize = start;
    assert(digits.take(0) =~= Seq::<char>::empty());
    while i < c.len()
        invariant
            start <= i <= c@.len(),
            c@ == s@,
            digits == without_plus(s@),
            digits == c@.skip(start as int),
            forall|k: int| 0 <= k < i - start ==> is_digit(#[trigger] digits[k]),
            !too_big ==> value == decimal(digits.take(i - start)) && value <= u16::MAX,
            too_big ==> decimal(digits.take(i - start)) > u16::MAX,
            digits.len() > 0,
        decreases c.len() - i,
    {
        let d = c[i];
        assert(digits[i - start] == d);
        if d < '0' || '9' < d {
            assert(!is_digit(digits[i - start]));
            return None;
        }
        assert(digits.take(i + 1 - start).drop_last() =~= digits.take(i - start));
        assert(digits.take(i + 1 - start).last() == d);
        if !too_big {
            value = value * 10 + (d as u32 - '0' as u32);
            if value > 65535 {
                too_big = true;
            }
        }
        i += 1;
    }
    assert(digits.take(digits.len() as int) =~= digits);
    if too_big {
        None
    } else {
        Some(value as u16)
    }
}

/// The port to listen on: the one in the environment, if there is one, or else
/// the one that is configured.
pub fn port_or(env: Option<String>, configured: u16) -> (r: u16)
    ensures
        r == match env {
            Some(s) => match port_in(s@) {
                Some(port) => port,
                None => configured,
            },
            None => configured,
        },
{
    match env {
        Some(s) => match parse_port(s.as_str()) {
            Some(port) => port,
            None => configured,
        },
        None => configured,
    }
}

// ---------------------------------------------------------------------
// Laws

/// A gateway starts with the settings of its configuration.
pub proof fn law_started(c: ConfigView, admin_password: Seq<char>)
    ensures
        ({
            let s = started(c, admin_password);
            &&& s.admin_password == admin_password
            &&& s.token_map == token_table(c.tokens)
            &&& s.langfuse_config == c.langfuse
            &&& s.backends == c.backends
            &&& s.privacy_mode == c.server.privacy_mode
            &&& s.server_config == c.server
            &&& s.processor_rules == c.processor_rules
        }),
{
}

/// What is saved are the settings as they are: the backends, the tracing, the tokens
/// and the rules, the server settings with which the gateway was started, and whether
/// it is in privacy mode now.
pub proof fn law_snapshot(c: ConfigView, s: AppStateView)
    requires
        is_snapshot_of(c, s),
    ensures
        c.ollama is None,
        c.backends == s.backends,
        c.langfuse == s.langfuse_config,
        c.processor_rules == s.processor_rules,
        c.server.privacy_mode == s.privacy_mode,
        c.server.listen_addr == s.server_config.listen_addr,
        c.server.listen_port == s.server_config.listen_port,
        c.server.admin_port == s.server_config.admin_port,
        c.server.model_refresh_interval_secs == s.server_config.model_refresh_interval_secs,
        token_table(c.tokens) == s.token_map,
        forall|i: int, j: int|
            0 <= i < j < c.tokens.len() ==> (#[trigger] c.tokens[i]).token != (
            #[trigger] c.tokens[j]).token,
{
}

/// Decimal numbers are read digit by digit, and a plus sign in front does not matter.
pub proof fn law_ports(digits: Seq<char>, d: char)
    requires
        '0' <= d <= '9',
    ensures
        decimal(Seq::empty()) == 0,
        decimal(digits.push(d)) == decimal(digits) * 10 + (d as u32 - 48),
        digits.len() > 0 && digits[0] != '+' ==> port_in(seq!['+'] + digits) == port_in(digits),
        port_in(digits) is Some && (digits.len() == 0 || digits[0] != '+') ==> digits.len() > 0
            && port_in(digits)->0 == decimal(digits) && forall|i: int|
            0 <= i < digits.len() ==> '0' <= #[trigger] digits[i] <= '9',
        digits.len() > 0 && decimal(digits) <= 65535 && (forall|i: int|
            0 <= i < digits.len() ==> '0' <= #[trigger] digits[i] <= '9') ==> port_in(digits)
            is Some,
{
    assert(digits.push(d).drop_last() =~= digits);
    assert((seq!['+'] + digits).skip(1) =~= digits);
    if digits.len() > 0 {
        assert(digits[0] == digits[0]);
    }
    if port_in(digits) is Some && (digits.len() == 0 || digits[0] != '+') {
        assert forall|i: int| 0 <= i < digits.len() implies '0' <= #[trigger] digits[i] <= '9' by {
            assert(is_digit(digits[i]));
        }
    }
}

/// The model of the settings has all that the settings have.
pub proof fn law_state_model(s: AppState)
    ensures
        s@.admin_password == s.admin_password@,
        s@.token_map == s.token_map@,
        s@.langfuse_config == s.langfuse_config@,
        s@.backends == views(s.backends@),
        s@.privacy_mode == s.privacy_mode,
        s@.server_config == s.server_config@,
        s@.processor_rules == views(s.processor_rules@),
{
}

} // verus!
