//! The server's configuration: tokens, their permissions, the size precedence
//! and launch presets.

use crate::text::{debug_string, debug_text, opt_text, text_eq};
use crate::wrap::{parse_size, size_of, texts};
use vstd::prelude::*;
use vstd::string::*;

verus! {

/// One filter rule. Regexes must match the whole value (they are anchored
/// at both ends).
pub struct FilterRule {
    /// Matches the session's real working directory (from its `connect`
    /// greeting; until the server has monitored the session, path rules
    /// fail closed).
    pub path: Option<String>,
    /// Matches the terminal's current window title; terminals without a
    /// title don't match.
    pub windowtitle: Option<String>,
}

pub ghost struct RuleView {
    pub path: Option<Seq<char>>,
    pub windowtitle: Option<Seq<char>>,
}

impl View for FilterRule {
    type V = RuleView;

    open spec fn view(&self) -> RuleView {
        RuleView { path: opt_text(self.path), windowtitle: opt_text(self.windowtitle) }
    }
}

pub open spec fn rule_views(rules: Seq<FilterRule>) -> Seq<RuleView> {
    rules.map_values(|r: FilterRule| r@)
}

/// A token's launch permission: a boolean or a list of preset names.
pub enum LaunchGrant {
    Flag(bool),
    Named(Vec<String>),
}

pub ghost enum GrantView {
    Flag(bool),
    Named(Seq<Seq<char>>),
}

impl View for LaunchGrant {
    type V = GrantView;

    open spec fn view(&self) -> GrantView {
        match *self {
            LaunchGrant::Flag(all) => GrantView::Flag(all),
            LaunchGrant::Named(names) => GrantView::Named(texts(names@)),
        }
    }
}

impl GrantView {
    /// Whether the grant lets a preset be launched.
    pub open spec fn allows(self, preset: Seq<char>) -> bool {
        match self {
            GrantView::Flag(all) => all,
            GrantView::Named(names) => names.contains(preset),
        }
    }

    /// Whether the grant lets nothing be launched.
    pub open spec fn is_none(self) -> bool {
        match self {
            GrantView::Flag(all) => !all,
            GrantView::Named(names) => names.len() == 0,
        }
    }
}

impl Default for LaunchGrant {
    fn default() -> (r: Self)
        ensures
            r@ == GrantView::Flag(false),
    {
        LaunchGrant::Flag(false)
    }
}

/// Whether a text is in a list.
pub fn list_has(list: &Vec<String>, text: &str) -> (r: bool)
    ensures
        r == texts(list@).contains(text@),
{
    position(list, text).is_some()
}

/// Where `text` first stands in `list`, from index `from` on.
pub open spec fn place(list: Seq<Seq<char>>, text: Seq<char>, from: int) -> Option<int>
    decreases list.len() - from,
{
    if from >= list.len() {
        None
    } else if list[from] == text {
        Some(from)
    } else {
        place(list, text, from + 1)
    }
}

/// Where `text` first stands in `list`.
pub fn position(list: &Vec<String>, text: &str) -> (r: Option<usize>)
    ensures
        match place(texts(list@), text@, 0) {
            Some(i) => r matches Some(k) && k == i && k < list@.len(),
            None => r is None,
        },
        r is Some == texts(list@).contains(text@),
{
    let ghost all = texts(list@);
    let mut i: usize = 0;
    while i < list.len()
        invariant
            i <= list@.len() == all.len(),
            all == texts(list@),
            forall|k: int| 0 <= k < i ==> #[trigger] all[k] != text@,
            place(all, text@, i as int) == place(all, text@, 0),
        decreases list@.len() - i,
    {
        assert(all[i as int] == list@[i as int]@);
        if text_eq(list[i].as_str(), text) {
            assert(all.contains(text@));
            return Some(i);
        }
        i += 1;
    }
    assert(!all.contains(text@));
    None
}

impl LaunchGrant {
    pub fn allows(&self, preset: &str) -> (r: bool)
        ensures
            r == self@.allows(preset@),
    {
        match self {
            LaunchGrant::Flag(all) => *all,
            LaunchGrant::Named(names) => list_has(names, preset),
        }
    }

    pub fn is_none(&self) -> (r: bool)
        ensures
            r == self@.is_none(),
    {
        match self {
            LaunchGrant::Flag(all) => !*all,
            LaunchGrant::Named(names) => names.len() == 0,
        }
    }
}

pub struct TokenConfig {
    /// Name identifying this token in `size_precedence` and to humans.
    pub name: String,
    /// Lowercase hex SHA-256 of the token.
    pub token_hash: String,
    /// When true (the default), reject all input from connections
    /// authenticated with this token, regardless of what the individual
    /// sessions allow.
    pub readonly: bool,
    /// Terminals this token may see and connect to: visible when ANY rule
    /// matches (within one rule, every present field must match). Empty:
    /// every terminal. Enforced on list, connect, and bell/title pushes;
    /// an attached terminal that stops matching (title change) is
    /// force-disconnected.
    pub filter: Vec<FilterRule>,
    /// Launch presets this token may start: `true` (all), or a list of
    /// preset names. Absent/`false`: none. A launch grant is remote code
    /// execution by design (give it only to tokens you'd hand a shell) and
    /// requires the token to be writable (checked at startup).
    pub launch: LaunchGrant,
}

pub ghost struct TokenView {
    pub name: Seq<char>,
    pub token_hash: Seq<char>,
    pub readonly: bool,
    pub filter: Seq<RuleView>,
    pub launch: GrantView,
}

impl View for TokenConfig {
    type V = TokenView;

    open spec fn view(&self) -> TokenView {
        TokenView {
            name: self.name@,
            token_hash: self.token_hash@,
            readonly: self.readonly,
            filter: rule_views(self.filter@),
            launch: self.launch@,
        }
    }
}

pub open spec fn token_views(tokens: Seq<TokenConfig>) -> Seq<TokenView> {
    tokens.map_values(|t: TokenConfig| t@)
}

/// Whether a token is read-only where the config does not say.
pub fn default_token_readonly() -> (r: bool)
    ensures
        r,
{
    true
}

fn copy_opt(text: &Option<String>) -> (r: Option<String>)
    ensures
        opt_text(r) == opt_text(*text),
{
    match text {
        Some(t) => Some(t.clone()),
        None => None,
    }
}

fn copy_grant(grant: &LaunchGrant) -> (r: LaunchGrant)
    ensures
        r@ == grant@,
{
    match grant {
        LaunchGrant::Flag(all) => LaunchGrant::Flag(*all),
        LaunchGrant::Named(names) => {
            let mut out: Vec<String> = Vec::new();
            let mut i: usize = 0;
            while i < names.len()
                invariant
                    i <= names@.len(),
                    out@.len() == i,
                    forall|k: int| 0 <= k < i ==> #[trigger] out@[k]@ == names@[k]@,
                decreases names@.len() - i,
            {
                out.push(names[i].clone());
                i += 1;
            }
            assert(texts(out@) =~= texts(names@));
            LaunchGrant::Named(out)
        },
    }
}

/// A copy of a token's configuration.
pub fn copy_token(token: &TokenConfig) -> (r: TokenConfig)
    ensures
        r@ == token@,
{
    let mut filter: Vec<FilterRule> = Vec::new();
    let mut i: usize = 0;
    while i < token.filter.len()
        invariant
            i <= token.filter@.len(),
            filter@.len() == i,
            forall|k: int| 0 <= k < i ==> #[trigger] filter@[k]@ == token.filter@[k]@,
        decreases token.filter@.len() - i,
    {
        let rule = &token.filter[i];
        filter.push(
            FilterRule { path: copy_opt(&rule.path), windowtitle: copy_opt(&rule.windowtitle) },
        );
        i += 1;
    }
    assert(rule_views(filter@) =~= rule_views(token.filter@));
    TokenConfig {
        name: token.name.clone(),
        token_hash: token.token_hash.clone(),
        readonly: token.readonly,
        filter,
        launch: copy_grant(&token.launch),
    }
}

/// One entry in the config's `launch` map: what a `launch` request for
/// this preset name starts. The wire can only name presets: argv, env, and
/// (unless `allow_cwd`) the working directory come from this laptop-local
/// config, never from the network.
pub struct LaunchPreset {
    /// Command and arguments; argv[0] is resolved via PATH.
    pub argv: Vec<String>,
    /// Working directory (leading `~` expanded); default: home.
    pub cwd: Option<String>,
    /// Initial window title; default: the preset name.
    pub title: Option<String>,
    /// Extra environment, merged over the server's own.
    pub env: Vec<(String, String)>,
    /// Allow the launch request to override `cwd`.
    pub allow_cwd: bool,
    /// History lines retained (wrapper --scrollback).
    pub scrollback: Option<u32>,
    /// Start the wrapper read-only (broadcast-style presets).
    pub readonly: bool,
    /// Initial pty size as `<cols>x<rows>` before any viewer resizes it;
    /// default 80x24.
    pub size: Option<String>,
}

pub ghost struct PresetView {
    pub argv: Seq<Seq<char>>,
    pub cwd: Option<Seq<char>>,
    pub title: Option<Seq<char>>,
    pub allow_cwd: bool,
    pub scrollback: Option<u32>,
    pub readonly: bool,
    pub size: Option<Seq<char>>,
}

impl View for LaunchPreset {
    type V = PresetView;

    open spec fn view(&self) -> PresetView {
        PresetView {
            argv: texts(self.argv@),
            cwd: opt_text(self.cwd),
            title: opt_text(self.title),
            allow_cwd: self.allow_cwd,
            scrollback: self.scrollback,
            readonly: self.readonly,
            size: opt_text(self.size),
        }
    }
}

/// A preset with its name.
pub struct NamedPreset {
    pub name: String,
    pub preset: LaunchPreset,
}

pub ghost struct NamedPresetView {
    pub name: Seq<char>,
    pub preset: PresetView,
}

impl View for NamedPreset {
    type V = NamedPresetView;

    open spec fn view(&self) -> NamedPresetView {
        NamedPresetView { name: self.name@, preset: self.preset@ }
    }
}

pub open spec fn preset_views(presets: Seq<NamedPreset>) -> Seq<NamedPresetView> {
    presets.map_values(|p: NamedPreset| p@)
}

/// One listen address or several (e.g. loopback for a tailscale funnel
/// proxy plus the tailscale IP for direct tailnet clients).
pub enum ListenAddrs {
    One(String),
    Many(Vec<String>),
}

impl ListenAddrs {
    /// The addresses, in order.
    pub fn addresses(&self) -> (r: Vec<String>)
        ensures
            texts(r@) == match *self {
                ListenAddrs::One(addr) => seq![addr@],
                ListenAddrs::Many(addrs) => texts(addrs@),
            },
    {
        let mut out: Vec<String> = Vec::new();
        match self {
            ListenAddrs::One(addr) => {
                out.push(addr.clone());
                assert(texts(out@) =~= seq![addr@]);
            },
            ListenAddrs::Many(addrs) => {
                let mut i: usize = 0;
                while i < addrs.len()
                    invariant
                        i <= addrs@.len(),
                        out@.len() == i,
                        forall|k: int| 0 <= k < i ==> #[trigger] out@[k]@ == addrs@[k]@,
                    decreases addrs@.len() - i,
                {
                    out.push(addrs[i].clone());
                    i += 1;
                }
                assert(texts(out@) =~= texts(addrs@));
            },
        }
        out
    }
}

pub struct Config {
    /// Address(es) to listen on. The server trusts these to be non-public
    /// (loopback or a tailscale address; public reachability is tailscale
    /// funnel's job); it warns on 0.0.0.0/::.
    pub listen_addr: ListenAddrs,
    pub port: u16,
    /// Tokens accepted for authentication. Manage with `--add-token`.
    pub auth_tokens: Vec<TokenConfig>,
    /// Ordered size policy: token names and "host". When several clients
    /// view one terminal at once, the wrapped app is sized to whichever
    /// connected viewer's token comes earliest; if "host" comes before all
    /// of them, the app stays at the host terminal's size and viewers get
    /// a host-sized stream. Unlisted tokens rank after every listed entry,
    /// and the host, when unlisted, ranks after unlisted tokens, so with no
    /// list at all any viewer resizes the app.
    pub size_precedence: Vec<String>,
    /// Named launch presets: commands a suitably-granted token may start
    /// as detached (headless) sessions. A `launch` request without a name
    /// uses the preset called "shell".
    pub launch: Vec<NamedPreset>,
    /// Legacy single-token form: equivalent to an `auth_tokens` entry named
    /// "default" whose readonly flag is `readonly` (defaulting to false).
    pub auth_token_hash: Option<String>,
    pub readonly: Option<bool>,
}

pub ghost struct ConfigView {
    pub auth_tokens: Seq<TokenView>,
    pub size_precedence: Seq<Seq<char>>,
    pub launch: Seq<NamedPresetView>,
    pub auth_token_hash: Option<Seq<char>>,
    pub readonly: Option<bool>,
}

impl View for Config {
    type V = ConfigView;

    open spec fn view(&self) -> ConfigView {
        ConfigView {
            auth_tokens: token_views(self.auth_tokens@),
            size_precedence: texts(self.size_precedence@),
            launch: preset_views(self.launch@),
            auth_token_hash: opt_text(self.auth_token_hash),
            readonly: self.readonly,
        }
    }
}

/// `<cols>x<rows>`, both positive.
pub fn parse_preset_size(s: &str) -> (r: bool)
    ensures
        r == (size_of(s@) is Some),
{
    parse_size(s).is_some()
}

/// The preset with a name, from index `from` on.
pub open spec fn find_preset(presets: Seq<NamedPresetView>, name: Seq<char>, from: int) -> Option<
    int,
>
    decreases presets.len() - from,
{
    if from >= presets.len() {
        None
    } else if presets[from].name == name {
        Some(from)
    } else {
        find_preset(presets, name, from + 1)
    }
}

impl ConfigView {
    /// All accepted tokens, with the legacy single-token fields folded in.
    pub open spec fn tokens(self) -> Seq<TokenView> {
        match self.auth_token_hash {
            Some(hash) => self.auth_tokens.push(
                TokenView {
                    name: "default"@,
                    token_hash: hash,
                    readonly: self.readonly == Some(true),
                    filter: Seq::empty(),
                    launch: GrantView::Flag(false),
                },
            ),
            None => self.auth_tokens,
        }
    }

    /// What is wrong with a preset, if anything is.
    pub open spec fn preset_fault(p: NamedPresetView) -> Option<Seq<char>> {
        if p.preset.argv.len() == 0 {
            Some("launch preset "@ + debug_text(p.name) + " has an empty argv"@)
        } else {
            match p.preset.size {
                Some(size) => if size_of(size) is None {
                    Some(
                        "launch preset "@ + debug_text(p.name) + " has a bad size "@ + debug_text(
                            size,
                        ) + " (want e.g. 80x24)"@,
                    )
                } else {
                    None
                },
                None => None,
            }
        }
    }

    /// What is wrong with the first faulty preset from index `i` on.
    pub open spec fn presets_fault(self, i: int) -> Option<Seq<char>>
        decreases self.launch.len() - i,
    {
        if i >= self.launch.len() {
            None
        } else {
            match Self::preset_fault(self.launch[i]) {
                Some(message) => Some(message),
                None => self.presets_fault(i + 1),
            }
        }
    }

    /// What is wrong with the first dangling name of a grant, from index `i`
    /// on.
    pub open spec fn names_fault(self, token: TokenView, names: Seq<Seq<char>>, i: int) -> Option<
        Seq<char>,
    >
        decreases names.len() - i,
    {
        if i >= names.len() {
            None
        } else if find_preset(self.launch, names[i], 0) is None {
            Some(
                "token "@ + debug_text(token.name) + " may launch "@ + debug_text(names[i])
                    + ", but no such launch preset exists"@,
            )
        } else {
            self.names_fault(token, names, i + 1)
        }
    }

    /// What is wrong with a token's launch grant, if anything is.
    pub open spec fn grant_fault(self, token: TokenView) -> Option<Seq<char>> {
        if token.launch.is_none() {
            None
        } else if token.readonly {
            Some(
                "token "@ + debug_text(token.name)
                    + " is read-only but has a launch grant; a token that can start shells it cannot type into is a contradiction \u{2014} make it writable or drop the grant"@,
            )
        } else {
            match token.launch {
                GrantView::Named(names) => self.names_fault(token, names, 0),
                GrantView::Flag(_) => None,
            }
        }
    }

    /// What is wrong with the first faulty grant, from index `i` on.
    pub open spec fn grants_fault(self, tokens: Seq<TokenView>, i: int) -> Option<Seq<char>>
        decreases tokens.len() - i,
    {
        if i >= tokens.len() {
            None
        } else {
            match self.grant_fault(tokens[i]) {
                Some(message) => Some(message),
                None => self.grants_fault(tokens, i + 1),
            }
        }
    }

    /// What is wrong with the launch configuration, if anything is.
    pub open spec fn launch_fault(self) -> Option<Seq<char>> {
        match self.presets_fault(0) {
            Some(message) => Some(message),
            None => self.grants_fault(self.tokens(), 0),
        }
    }

    /// (viewer rank, host rank) in the size-precedence order for a token name;
    /// lower wins.
    pub open spec fn size_ranks(self, token_name: Seq<char>) -> (int, int) {
        let len = self.size_precedence.len() as int;
        (
            match place(self.size_precedence, token_name, 0) {
                Some(i) => i,
                None => len,
            },
            match place(self.size_precedence, "host"@, 0) {
                Some(i) => i,
                None => len + 1,
            },
        )
    }
}

impl Config {
    /// All accepted tokens, with the legacy single-token fields folded in.
    pub fn tokens(&self) -> (r: Vec<TokenConfig>)
        ensures
            token_views(r@) == self@.tokens(),
    {
        let mut tokens: Vec<TokenConfig> = Vec::new();
        let mut i: usize = 0;
        while i < self.auth_tokens.len()
            invariant
                i <= self.auth_tokens@.len(),
                tokens@.len() == i,
                forall|k: int| 0 <= k < i ==> #[trigger] tokens@[k]@ == self.auth_tokens@[k]@,
            decreases self.auth_tokens@.len() - i,
        {
            tokens.push(copy_token(&self.auth_tokens[i]));
            i += 1;
        }
        assert(token_views(tokens@) =~= self@.auth_tokens);
        if let Some(hash) = &self.auth_token_hash {
            let legacy = TokenConfig {
                name: "default".to_owned(),
                token_hash: hash.clone(),
                readonly: match self.readonly {
                    Some(b) => b,
                    None => false,
                },
                filter: Vec::new(),
                launch: LaunchGrant::Flag(false),
            };
            assert(legacy@.filter =~= Seq::<RuleView>::empty());
            tokens.push(legacy);
            assert(token_views(tokens@) =~= self@.auth_tokens.push(legacy@));
        }
        tokens
    }

    /// Where the preset with a name stands.
    pub fn preset(&self, name: &str) -> (r: Option<usize>)
        ensures
            match find_preset(self@.launch, name@, 0) {
                Some(i) => r matches Some(k) && k == i && k < self.launch@.len(),
                None => r is None,
            },
    {
        let mut i: usize = 0;
        while i < self.launch.len()
            invariant
                i <= self.launch@.len(),
                self@.launch == preset_views(self.launch@),
                find_preset(self@.launch, name@, i as int) == find_preset(self@.launch, name@, 0),
            decreases self.launch@.len() - i,
        {
            assert(self@.launch[i as int] == self.launch@[i as int]@);
            if text_eq(self.launch[i].name.as_str(), name) {
                return Some(i);
            }
            i += 1;
        }
        None
    }

    /// Checks a token's launch grant.
    fn check_grant(&self, token: &TokenConfig) -> (r: Result<(), String>)
        ensures
            match self@.grant_fault(token@) {
                Some(message) => r matches Err(m) && m@ == message,
                None => r is Ok,
            },
    {
        if token.launch.is_none() {
            return Ok(());
        }
        if token.readonly {
            let mut message = "token ".to_owned();
            message.append(debug_string(token.name.as_str()).as_str());
            message.append(
                " is read-only but has a launch grant; a token that can start shells it cannot type into is a contradiction \u{2014} make it writable or drop the grant",
            );
            return Err(message);
        }
        if let LaunchGrant::Named(names) = &token.launch {
            let ghost all = texts(names@);
            let mut i: usize = 0;
            while i < names.len()
                invariant
                    i <= names@.len() == all.len(),
                    all == texts(names@),
                    self@.names_fault(token@, all, i as int) == self@.names_fault(token@, all, 0),
                    self@.grant_fault(token@) == self@.names_fault(token@, all, 0),
                decreases names@.len() - i,
            {
                assert(all[i as int] == names@[i as int]@);
                if self.preset(names[i].as_str()).is_none() {
                    let mut message = "token ".to_owned();
                    message.append(debug_string(token.name.as_str()).as_str());
                    message.append(" may launch ");
                    message.append(debug_string(names[i].as_str()).as_str());
                    message.append(", but no such launch preset exists");
                    return Err(message);
                }
                i += 1;
            }
        }
        Ok(())
    }

    /// Startup validation of the launch configuration: contradictory or
    /// dangling grants and malformed presets are config errors, not
    /// launch-time surprises.
    pub fn validate_launch(&self) -> (r: Result<(), String>)
        ensures
            match self@.launch_fault() {
                Some(message) => r matches Err(m) && m@ == message,
                None => r is Ok,
            },
    {
        let mut i: usize = 0;
        while i < self.launch.len()
            invariant
                i <= self.launch@.len(),
                self@.launch == preset_views(self.launch@),
                self@.presets_fault(i as int) == self@.presets_fault(0),
            decreases self.launch@.len() - i,
        {
            let p = &self.launch[i];
            assert(self@.launch[i as int] == p@);
            assert(p@.preset.argv.len() == p.preset.argv@.len());
            if p.preset.argv.len() == 0 {
                let mut message = "launch preset ".to_owned();
                message.append(debug_string(p.name.as_str()).as_str());
                message.append(" has an empty argv");
                return Err(message);
            }
            if let Some(size) = &p.preset.size {
                if !parse_preset_size(size.as_str()) {
                    let mut message = "launch preset ".to_owned();
                    message.append(debug_string(p.name.as_str()).as_str());
                    message.append(" has a bad size ");
                    message.append(debug_string(size.as_str()).as_str());
                    message.append(" (want e.g. 80x24)");
                    return Err(message);
                }
            }
            i += 1;
        }
        let tokens = self.tokens();
        let ghost all = self@.tokens();
        let mut i: usize = 0;
        while i < tokens.len()
            invariant
                i <= tokens@.len() == all.len(),
                all == token_views(tokens@),
                all == self@.tokens(),
                self@.presets_fault(0) is None,
                self@.grants_fault(all, i as int) == self@.grants_fault(all, 0),
            decreases tokens@.len() - i,
        {
            assert(all[i as int] == tokens@[i as int]@);
            match self.check_grant(&tokens[i]) {
                Ok(_) => {},
                Err(message) => {
                    return Err(message);
                },
            }
            i += 1;
        }
        Ok(())
    }

    /// (viewer rank, host rank) in the size-precedence order for a token
    /// name; lower wins. See the `size_precedence` field for the ordering
    /// rules this implements.
    pub fn size_ranks(&self, token_name: &str) -> (r: (u32, u32))
        requires
            self@.size_precedence.len() < u32::MAX,
        ensures
            (r.0 as int, r.1 as int) == self@.size_ranks(token_name@),
    {
        let len: u32 = self.size_precedence.len() as u32;
        let viewer: u32 = match position(&self.size_precedence, token_name) {
            Some(i) => i as u32,
            None => len,
        };
        let host: u32 = match position(&self.size_precedence, "host") {
            Some(i) => i as u32,
            None => len + 1,
        };
        (viewer, host)
    }
}

proof fn place_is_first(list: Seq<Seq<char>>, text: Seq<char>, from: int)
    requires
        0 <= from <= list.len(),
    ensures
        match place(list, text, from) {
            Some(i) => from <= i < list.len() && list[i] == text,
            None => forall|k: int| from <= k < list.len() ==> #[trigger] list[k] != text,
        },
    decreases list.len() - from,
{
    if from < list.len() && list[from] != text {
        place_is_first(list, text, from + 1);
    }
}

/// The size precedence: an unlisted token ranks after every listed one, and an
/// unlisted host after every token, listed or not.
pub proof fn unlisted_parties_rank_last(c: ConfigView, listed: Seq<char>, unlisted: Seq<char>)
    requires
        c.size_precedence.contains(listed),
        !c.size_precedence.contains(unlisted),
    ensures
        c.size_ranks(listed).0 < c.size_ranks(unlisted).0,
        !c.size_precedence.contains("host"@) ==> c.size_ranks(listed).0 < c.size_ranks(listed).1
            && c.size_ranks(unlisted).0 < c.size_ranks(unlisted).1,
{
    place_is_first(c.size_precedence, listed, 0);
    place_is_first(c.size_precedence, unlisted, 0);
    place_is_first(c.size_precedence, "host"@, 0);
}

/// With no precedence list at all, any viewer resizes the app.
pub proof fn without_a_list_viewers_win(c: ConfigView, token_name: Seq<char>)
    requires
        c.size_precedence.len() == 0,
    ensures
        c.size_ranks(token_name).0 < c.size_ranks(token_name).1,
{
}

/// In a valid configuration, no read-only token can launch anything, and every
/// preset that a token names exists and has a command.
pub proof fn valid_grants_are_usable(c: ConfigView, i: int, preset: Seq<char>)
    requires
        c.launch_fault() is None,
        0 <= i < c.tokens().len(),
        c.tokens()[i].launch.allows(preset),
    ensures
        !c.tokens()[i].readonly,
        c.tokens()[i].launch is Named ==> find_preset(c.launch, preset, 0) is Some,
{
    grants_hold(c, c.tokens(), 0, i);
    if let GrantView::Named(names) = c.tokens()[i].launch {
        let k = choose|k: int| 0 <= k < names.len() && names[k] == preset;
        names_hold(c, c.tokens()[i], names, 0, k);
    }
}

proof fn grants_hold(c: ConfigView, tokens: Seq<TokenView>, from: int, i: int)
    requires
        c.grants_fault(tokens, from) is None,
        0 <= from <= i < tokens.len(),
    ensures
        c.grant_fault(tokens[i]) is None,
    decreases i - from,
{
    if from < i {
        grants_hold(c, tokens, from + 1, i);
    }
}

proof fn names_hold(c: ConfigView, token: TokenView, names: Seq<Seq<char>>, from: int, k: int)
    requires
        c.names_fault(token, names, from) is None,
        0 <= from <= k < names.len(),
    ensures
        find_preset(c.launch, names[k], 0) is Some,
    decreases k - from,
{
    if from < k {
        names_hold(c, token, names, from + 1, k);
    }
}

/// A single token that is given by its hash alone counts as one more, named
/// `default`, behind the others: it may write unless that is ruled out, sees
/// every terminal and launches nothing. The others are as they are.
pub proof fn single_tokens_are_folded_in(c: ConfigView)
    ensures
        c.auth_token_hash is None ==> c.tokens() == c.auth_tokens,
        c.auth_token_hash matches Some(hash) ==> {
            let n = c.auth_tokens.len() as int;
            let token = c.tokens()[n];
            &&& c.tokens().len() == n + 1
            &&& forall|i: int| 0 <= i < n ==> c.tokens()[i] == #[trigger] c.auth_tokens[i]
            &&& token.name == "default"@
            &&& token.token_hash == hash
            &&& token.readonly == (c.readonly is Some && c.readonly->Some_0)
            &&& token.filter.len() == 0
            &&& forall|preset: Seq<char>| !token.launch.allows(preset)
        },
{
}

proof fn presets_are_checked(c: ConfigView, from: int)
    requires
        0 <= from <= c.launch.len(),
    ensures
        c.presets_fault(from) is None <==> forall|i: int|
            from <= i < c.launch.len() ==> ConfigView::preset_fault(#[trigger] c.launch[i]) is None,
        c.presets_fault(from) matches Some(m) ==> exists|i: int|
            from <= i < c.launch.len() && ConfigView::preset_fault(#[trigger] c.launch[i]) == Some(
                m,
            ),
    decreases c.launch.len() - from,
{
    if from < c.launch.len() {
        presets_are_checked(c, from + 1);
        if ConfigView::preset_fault(c.launch[from]) is Some {
            assert(!(ConfigView::preset_fault(c.launch[from]) is None));
        } else if c.presets_fault(from + 1) is None {
            assert forall|i: int| from <= i < c.launch.len() implies ConfigView::preset_fault(
                #[trigger] c.launch[i],
            ) is None by {}
        }
    }
}

proof fn names_are_checked(c: ConfigView, token: TokenView, names: Seq<Seq<char>>, from: int)
    requires
        0 <= from <= names.len(),
    ensures
        c.names_fault(token, names, from) is None <==> forall|k: int|
            from <= k < names.len() ==> find_preset(c.launch, #[trigger] names[k], 0) is Some,
        c.names_fault(token, names, from) matches Some(m) ==> exists|k: int|
            from <= k < names.len() && find_preset(c.launch, #[trigger] names[k], 0) is None && m
                == "token "@ + debug_text(token.name) + " may launch "@ + debug_text(names[k])
                + ", but no such launch preset exists"@,
    decreases names.len() - from,
{
    if from < names.len() {
        names_are_checked(c, token, names, from + 1);
        if find_preset(c.launch, names[from], 0) is None {
            assert(!(find_preset(c.launch, names[from], 0) is Some));
        } else if c.names_fault(token, names, from + 1) is None {
            assert forall|k: int| from <= k < names.len() implies find_preset(
                c.launch,
                #[trigger] names[k],
                0,
            ) is Some by {}
        }
    }
}

proof fn grants_are_checked(c: ConfigView, tokens: Seq<TokenView>, from: int)
    requires
        0 <= from <= tokens.len(),
    ensures
        c.grants_fault(tokens, from) is None <==> forall|i: int|
            from <= i < tokens.len() ==> c.grant_fault(#[trigger] tokens[i]) is None,
    decreases tokens.len() - from,
{
    if from < tokens.len() {
        grants_are_checked(c, tokens, from + 1);
        if c.grant_fault(tokens[from]) is Some {
            assert(!(c.grant_fault(tokens[from]) is None));
        } else if c.grants_fault(tokens, from + 1) is None {
            assert forall|i: int| from <= i < tokens.len() implies c.grant_fault(
                #[trigger] tokens[i],
            ) is None by {}
        }
    }
}

/// Whether a launch preset can be launched: it has a command, and a size that
/// can be read where it names one.
pub open spec fn launchable(p: PresetView) -> bool {
    &&& p.argv.len() > 0
    &&& p.size matches Some(size) ==> size_of(size) is Some
}

/// Whether what a token may launch makes sense: nothing, or a token that may
/// write and, where it names presets, presets that are there.
pub open spec fn grant_makes_sense(c: ConfigView, token: TokenView) -> bool {
    match token.launch {
        GrantView::Flag(all) => all ==> !token.readonly,
        GrantView::Named(names) => names.len() > 0 ==> !token.readonly && forall|k: int|
            0 <= k < names.len() ==> find_preset(c.launch, #[trigger] names[k], 0) is Some,
    }
}

/// A configuration is accepted exactly if every preset can be launched, and
/// what each token may launch makes sense.
pub proof fn configurations_are_checked(c: ConfigView)
    ensures
        c.launch_fault() is None <==> {
            &&& forall|i: int| 0 <= i < c.launch.len() ==> launchable((#[trigger] c.launch[i]).preset)
            &&& forall|i: int|
                0 <= i < c.tokens().len() ==> grant_makes_sense(c, #[trigger] c.tokens()[i])
        },
{
    presets_are_checked(c, 0);
    grants_are_checked(c, c.tokens(), 0);
    assert forall|i: int| 0 <= i < c.launch.len() implies (ConfigView::preset_fault(
        #[trigger] c.launch[i],
    ) is None) == launchable(c.launch[i].preset) by {}
    assert forall|i: int| 0 <= i < c.tokens().len() implies (c.grant_fault(
        #[trigger] c.tokens()[i],
    ) is None) == grant_makes_sense(c, c.tokens()[i]) by {
        if let GrantView::Named(names) = c.tokens()[i].launch {
            names_are_checked(c, c.tokens()[i], names, 0);
        }
    }
}

/// What is said of a configuration that is not accepted: of a preset, that it
/// has no command, or a size that cannot be read; and of a token, that it may
/// launch but only read, or which preset that it names is not there.
pub proof fn faults_are_named(c: ConfigView, message: Seq<char>)
    requires
        c.launch_fault() == Some(message),
    ensures
        ({
            ||| exists|i: int|
                0 <= i < c.launch.len() && (#[trigger] c.launch[i]).preset.argv.len() == 0
                    && message == "launch preset "@ + debug_text(c.launch[i].name)
                    + " has an empty argv"@
            ||| exists|i: int|
                0 <= i < c.launch.len() && (#[trigger] c.launch[i]).preset.size is Some && size_of(
                    c.launch[i].preset.size->Some_0,
                ) is None && message == "launch preset "@ + debug_text(c.launch[i].name)
                    + " has a bad size "@ + debug_text(c.launch[i].preset.size->Some_0)
                    + " (want e.g. 80x24)"@
            ||| exists|i: int|
                0 <= i < c.tokens().len() && (#[trigger] c.tokens()[i]).readonly && message
                    == "token "@ + debug_text(c.tokens()[i].name)
                    + " is read-only but has a launch grant; a token that can start shells it cannot type into is a contradiction \u{2014} make it writable or drop the grant"@
            ||| exists|i: int, name: Seq<char>|
                0 <= i < c.tokens().len() && c.tokens()[i].launch.allows(name) && find_preset(
                    c.launch,
                    name,
                    0,
                ) is None && message == "token "@ + debug_text((#[trigger] c.tokens()[i]).name)
                    + " may launch "@ + #[trigger] debug_text(name)
                    + ", but no such launch preset exists"@
        }),
{
    presets_are_checked(c, 0);
    if c.presets_fault(0) is None {
        let i = grant_fault_found(c, c.tokens(), 0, message);
        let token = c.tokens()[i];
        if !token.readonly {
            if let GrantView::Named(names) = token.launch {
                names_are_checked(c, token, names, 0);
                let k = choose|k: int|
                    0 <= k < names.len() && find_preset(c.launch, #[trigger] names[k], 0) is None
                        && message == "token "@ + debug_text(token.name) + " may launch "@
                        + debug_text(names[k]) + ", but no such launch preset exists"@;
                assert(token.launch.allows(names[k]));
                assert(c.tokens()[i].launch.allows(names[k]));
            }
        }
    } else {
        let i = choose|i: int|
            0 <= i < c.launch.len() && ConfigView::preset_fault(#[trigger] c.launch[i]) == Some(
                message,
            );
        if c.launch[i].preset.argv.len() == 0 {
            assert(message == "launch preset "@ + debug_text(c.launch[i].name)
                + " has an empty argv"@);
        } else {
            assert(c.launch[i].preset.size is Some);
        }
    }
}

proof fn grant_fault_found(c: ConfigView, tokens: Seq<TokenView>, from: int, message: Seq<char>) -> (i: int)
    requires
        0 <= from <= tokens.len(),
        c.grants_fault(tokens, from) == Some(message),
    ensures
        from <= i < tokens.len(),
        c.grant_fault(tokens[i]) == Some(message),
    decreases tokens.len() - from,
{
    if c.grant_fault(tokens[from]) is Some {
        from
    } else {
        grant_fault_found(c, tokens, from + 1, message)
    }
}

} // verus!
