//! The network settings dialog: a proxy form and a form for the source of historical trades,
//! with drafts that differ from the configuration in use until they are applied.
use crate::connector::client;
use crate::connector::client::parses_as_url;
use crate::connector::network;
use crate::connector::network::{
    copy_network, copy_proxy_option, copy_text, Network, Proxy, ProxyScheme, TradeFetchMode,
};
use crate::text;
use crate::text::{decimal, trim, trim_end_slashes};
use vstd::prelude::*;
use vstd::string::*;

verus! {

/// What the dialog asks of the application.
#[derive(Debug, Clone)]
pub enum Action {
    ApplyProxy(Option<Proxy>),
    ApplyServerConfig { mode: TradeFetchMode, url: Option<String>, auth_token: Option<String> },
    Exit,
}

/// Which question the dialog is waiting for an answer to.
#[derive(Debug, Clone, Copy, PartialEq, Eq, Structural)]
pub enum ConfirmState {
    Idle,
    ProxyClear,
    FetchClear,
}

#[derive(Debug, Clone)]
pub enum Message {
    Proxy(ProxyMsg),
    Fetch(FetchMsg),
    GoBack,
}

#[derive(Debug, Clone)]
pub enum ProxyMsg {
    ToggleShowPassword(bool),
    SchemeChanged(ProxyScheme),
    HostChanged(String),
    PortChanged(String),
    UsernameChanged(String),
    PasswordChanged(String),
    RequestApply,
    RequestClear,
    Clear,
    Cancel,
}

#[derive(Debug, Clone, Copy, PartialEq, Eq, Structural)]
pub enum FetchModeTag {
    Exchange,
    Server,
}

#[derive(Debug, Clone)]
pub enum FetchMsg {
    ToggleShowToken(bool),
    ServerUrlChanged(String),
    ServerAuthTokenChanged(String),
    ToggleFetchTrades(bool),
    SelectFetchMode(FetchModeTag),
    ToggleServerConfig,
    RequestApplyFetch,
    Cancel,
    RequestClearAuth,
    ConfirmClearAuth,
}

/// The row of buttons below a form.
#[derive(Debug, Clone, Copy, PartialEq, Eq, Structural)]
pub enum ButtonRow {
    /// A question with a button for yes and one for no.
    Confirm,
    /// A hint that a restart is needed, a button to apply and one to clear, each where it
    /// makes sense.
    Actions { pending_info: bool, apply: bool, clear: bool },
}

/// The draft of a proxy.
#[derive(Debug, Clone)]
pub struct ProxyForm {
    pub scheme: ProxyScheme,
    pub host: String,
    pub port: String,
    pub username: String,
    pub password: String,
    pub hide_password: bool,
}

/// The draft of a proxy as its texts.
pub struct ProxyFormView {
    pub scheme: ProxyScheme,
    pub host: Seq<char>,
    pub port: Seq<char>,
    pub username: Seq<char>,
    pub password: Seq<char>,
    pub hide_password: bool,
}

impl View for ProxyForm {
    type V = ProxyFormView;

    open spec fn view(&self) -> ProxyFormView {
        ProxyFormView {
            scheme: self.scheme,
            host: self.host@,
            port: self.port@,
            username: self.username@,
            password: self.password@,
            hide_password: self.hide_password,
        }
    }
}

/// The text holds nothing but white space.
pub open spec fn is_blank(s: Seq<char>) -> bool {
    text::trimmed(s).len() == 0
}

fn blank(s: &String) -> (r: bool)
    ensures
        r == is_blank(s@),
{
    let t: String = trim(s.as_str());
    t.as_str().is_empty()
}

fn same_trimmed(draft: &String, effective: &String) -> (r: bool)
    ensures
        r == (text::trimmed(draft@) == effective@),
{
    let t: String = trim(draft.as_str());
    t == *effective
}

impl ProxyFormView {
    /// A form in which nothing was entered.
    pub open spec fn cleared() -> ProxyFormView {
        ProxyFormView {
            scheme: ProxyScheme::Http,
            host: Seq::empty(),
            port: Seq::empty(),
            username: Seq::empty(),
            password: Seq::empty(),
            hide_password: true,
        }
    }

    /// No field has content.
    pub open spec fn is_empty(self) -> bool {
        is_blank(self.host) && is_blank(self.port) && is_blank(self.username) && is_blank(
            self.password,
        )
    }

    /// The form filled in from a proxy.
    pub open spec fn filled(self, p: network::ProxyView) -> ProxyFormView {
        ProxyFormView {
            scheme: p.scheme,
            host: p.host,
            port: text::decimal_digits(p.port as nat),
            username: match p.auth {
                Some(a) => a.0,
                None => Seq::empty(),
            },
            password: match p.auth {
                Some(a) => a.1,
                None => Seq::empty(),
            },
            ..self
        }
    }

    /// A field of the form says something else than the proxy.
    pub open spec fn differs(self, p: network::ProxyView) -> bool {
        ||| self.scheme != p.scheme
        ||| text::trimmed(self.host) != p.host
        ||| text::trimmed(self.port) != text::decimal_digits(p.port as nat)
        ||| text::trimmed(self.username) != (match p.auth {
            Some(a) => a.0,
            None => Seq::empty(),
        })
        ||| text::trimmed(self.password) != (match p.auth {
            Some(a) => a.1,
            None => Seq::empty(),
        })
    }

    /// The form says something else than the proxy in use. An empty form says that there is no
    /// proxy.
    pub open spec fn is_pending(self, effective: Option<network::ProxyView>) -> bool {
        match effective {
            Some(p) => self.differs(p),
            None => !self.is_empty(),
        }
    }

    /// The form after a message, apart from what the message asks of the application.
    pub open spec fn after(self, msg: ProxyMsg) -> ProxyFormView {
        match msg {
            ProxyMsg::ToggleShowPassword(v) => ProxyFormView { hide_password: v, ..self },
            ProxyMsg::SchemeChanged(v) => ProxyFormView { scheme: v, ..self },
            ProxyMsg::HostChanged(v) => ProxyFormView { host: v@, ..self },
            ProxyMsg::PortChanged(v) => ProxyFormView { port: v@, ..self },
            ProxyMsg::UsernameChanged(v) => ProxyFormView { username: v@, ..self },
            ProxyMsg::PasswordChanged(v) => ProxyFormView { password: v@, ..self },
            ProxyMsg::Clear => ProxyFormView {
                hide_password: self.hide_password,
                ..ProxyFormView::cleared()
            },
            ProxyMsg::RequestApply | ProxyMsg::RequestClear | ProxyMsg::Cancel => self,
        }
    }
}

/// What applying the form comes to: no proxy where the form is empty, else what its parts were
/// built into.
pub open spec fn built_proxy(
    form: ProxyFormView,
    parsed: Result<Proxy, String>,
) -> Result<Option<Proxy>, String> {
    if form.is_empty() {
        Ok(None)
    } else {
        match parsed {
            Ok(p) => Ok(Some(p)),
            Err(e) => Err(e),
        }
    }
}

impl ProxyForm {
    /// A form in which nothing was entered.
    pub fn new() -> (f: ProxyForm)
        ensures
            f@ == ProxyFormView::cleared(),
    {
        let f = ProxyForm {
            scheme: ProxyScheme::Http,
            host: String::new(),
            port: String::new(),
            username: String::new(),
            password: String::new(),
            hide_password: true,
        };
        proof {
            assert(f.host@ =~= Seq::<char>::empty());
            assert(f.port@ =~= Seq::<char>::empty());
            assert(f.username@ =~= Seq::<char>::empty());
            assert(f.password@ =~= Seq::<char>::empty());
        }
        f
    }

    /// Fills the form in from a proxy, if there is one.
    pub fn populate_from(&mut self, cfg: Option<&Proxy>)
        ensures
            final(self)@ == (match cfg {
                Some(p) => old(self)@.filled(p@),
                None => old(self)@,
            }),
    {
        if let Some(p) = cfg {
            self.scheme = p.scheme;
            self.host = p.host.clone();
            self.port = decimal(p.port as u64);
            match &p.auth {
                Some(a) => {
                    self.username = a.username.clone();
                    self.password = a.password.clone();
                },
                None => {
                    self.username = String::new();
                    self.password = String::new();
                    proof {
                        assert(self.username@ =~= Seq::<char>::empty());
                        assert(self.password@ =~= Seq::<char>::empty());
                    }
                },
            }
        }
    }

    /// Whether no field has content.
    pub fn is_empty(&self) -> (r: bool)
        ensures
            r == self@.is_empty(),
    {
        blank(&self.host) && blank(&self.port) && blank(&self.username) && blank(&self.password)
    }

    /// Whether the form says something else than the proxy in use.
    pub fn is_pending(&self, effective: Option<&Proxy>) -> (r: bool)
        ensures
            r == self@.is_pending(
                match effective {
                    Some(p) => Some(p@),
                    None => None,
                },
            ),
    {
        match effective {
            None => !self.is_empty(),
            Some(p) => {
                let port: String = decimal(p.port as u64);
                let auth_differs: bool = match &p.auth {
                    Some(a) => !same_trimmed(&self.username, &a.username) || !same_trimmed(
                        &self.password,
                        &a.password,
                    ),
                    None => !blank(&self.username) || !blank(&self.password),
                };
                proof {
                    if p.auth is None {
                        assert(is_blank(self@.username) <==> text::trimmed(self@.username)
                            =~= Seq::<char>::empty());
                        assert(is_blank(self@.password) <==> text::trimmed(self@.password)
                            =~= Seq::<char>::empty());
                    }
                }
                self.scheme != p.scheme || !same_trimmed(&self.host, &p.host) || !same_trimmed(
                    &self.port,
                    &port,
                ) || auth_differs
            },
        }
    }

    /// What applying the form comes to. `parsed` is the proxy that the parts of the form make,
    /// or what is wrong with them; it does not count where the form is empty.
    pub fn build_from_parts(&self, parsed: Result<Proxy, String>) -> (r: Result<
        Option<Proxy>,
        String,
    >)
        ensures
            r == built_proxy(self@, parsed),
    {
        if self.is_empty() {
            Ok(None)
        } else {
            match parsed {
                Ok(p) => Ok(Some(p)),
                Err(e) => Err(e),
            }
        }
    }

    /// The buttons below the form.
    pub fn buttons(&self, effective: Option<&Proxy>, confirm: ConfirmState) -> (r: ButtonRow)
        ensures
            r == (if confirm == ConfirmState::ProxyClear {
                ButtonRow::Confirm
            } else {
                let pending = self@.is_pending(
                    match effective {
                        Some(p) => Some(p@),
                        None => None,
                    },
                );
                ButtonRow::Actions {
                    pending_info: pending,
                    apply: pending,
                    clear: effective is Some,
                }
            }),
    {
        match confirm {
            ConfirmState::ProxyClear => ButtonRow::Confirm,
            _ => {
                let pending: bool = self.is_pending(effective);
                ButtonRow::Actions {
                    pending_info: pending,
                    apply: pending,
                    clear: effective.is_some(),
                }
            },
        }
    }

    /// Takes in a message. `parsed` is the proxy that the parts of the form make.
    pub fn update(
        &mut self,
        message: ProxyMsg,
        confirm: &mut ConfirmState,
        error: &mut Option<String>,
        parsed: Result<Proxy, String>,
    ) -> (action: Option<Action>)
        ensures
            final(self)@ == old(self)@.after(message),
            *final(confirm) == (match message {
                ProxyMsg::RequestClear => ConfirmState::ProxyClear,
                _ => ConfirmState::Idle,
            }),
            *final(error) == (match message {
                ProxyMsg::Cancel => *old(error),
                ProxyMsg::RequestApply => match built_proxy(old(self)@, parsed) {
                    Ok(_) => None,
                    Err(e) => Some(e),
                },
                _ => None,
            }),
            action == (match message {
                ProxyMsg::RequestApply => match built_proxy(old(self)@, parsed) {
                    Ok(cfg) => Some(Action::ApplyProxy(cfg)),
                    Err(_) => None,
                },
                ProxyMsg::Clear => Some(Action::ApplyProxy(None)),
                _ => None,
            }),
    {
        match message {
            ProxyMsg::ToggleShowPassword(v) => {
                self.hide_password = v;
                *confirm = ConfirmState::Idle;
                *error = None;
            },
            ProxyMsg::SchemeChanged(v) => {
                self.scheme = v;
                *confirm = ConfirmState::Idle;
                *error = None;
            },
            ProxyMsg::HostChanged(v) => {
                self.host = v;
                *confirm = ConfirmState::Idle;
                *error = None;
            },
            ProxyMsg::PortChanged(v) => {
                self.port = v;
                *confirm = ConfirmState::Idle;
                *error = None;
            },
            ProxyMsg::UsernameChanged(v) => {
                self.username = v;
                *confirm = ConfirmState::Idle;
                *error = None;
            },
            ProxyMsg::PasswordChanged(v) => {
                self.password = v;
                *confirm = ConfirmState::Idle;
                *error = None;
            },
            ProxyMsg::RequestApply => {
                *confirm = ConfirmState::Idle;
                match self.build_from_parts(parsed) {
                    Ok(cfg) => {
                        *error = None;
                        return Some(Action::ApplyProxy(cfg));
                    },
                    Err(e) => {
                        *error = Some(e);
                    },
                }
            },
            ProxyMsg::RequestClear => {
                *confirm = ConfirmState::ProxyClear;
                *error = None;
            },
            ProxyMsg::Clear => {
                *confirm = ConfirmState::Idle;
                *error = None;
                let hide_password: bool = self.hide_password;
                *self = ProxyForm::new();
                self.hide_password = hide_password;
                return Some(Action::ApplyProxy(None));
            },
            ProxyMsg::Cancel => {
                *confirm = ConfirmState::Idle;
            },
        }
        None
    }
}

/// The draft of the trade-fetch settings.
#[derive(Debug, Clone)]
pub struct FetchForm {
    pub server_url_input: String,
    pub server_auth_token_input: String,
    pub expanded_server: bool,
    pub draft_active: bool,
    pub draft_tag: FetchModeTag,
    pub hide_token: bool,
}

/// The draft of the trade-fetch settings as its texts.
pub struct FetchFormView {
    pub url: Seq<char>,
    pub token: Seq<char>,
    pub expanded: bool,
    pub active: bool,
    pub tag: FetchModeTag,
    pub hide_token: bool,
}

impl View for FetchForm {
    type V = FetchFormView;

    open spec fn view(&self) -> FetchFormView {
        FetchFormView {
            url: self.server_url_input@,
            token: self.server_auth_token_input@,
            expanded: self.expanded_server,
            active: self.draft_active,
            tag: self.draft_tag,
            hide_token: self.hide_token,
        }
    }
}

/// `s`, or nothing where it is empty.
pub open spec fn non_empty(s: Seq<char>) -> Option<Seq<char>> {
    if s.len() == 0 {
        None
    } else {
        Some(s)
    }
}

/// What is wrong with the draft when it is applied.
pub open spec fn fetch_problem(form: FetchFormView, url_is_valid: bool) -> Option<Seq<char>> {
    if form.active && form.tag == FetchModeTag::Server {
        if form.trimmed_url() is None || is_blank(form.trimmed_url()->0) {
            Some("Server URL is required when mode is set to Server"@)
        } else if !url_is_valid {
            Some("Server URL is not a valid URL"@)
        } else {
            None
        }
    } else {
        None
    }
}

impl FetchFormView {
    /// The mode that the draft stands for.
    pub open spec fn mode(self) -> TradeFetchMode {
        if !self.active {
            TradeFetchMode::Off
        } else {
            match self.tag {
                FetchModeTag::Exchange => TradeFetchMode::Exchange,
                FetchModeTag::Server => TradeFetchMode::Server,
            }
        }
    }

    /// The URL that the draft stands for.
    pub open spec fn trimmed_url(self) -> Option<Seq<char>> {
        non_empty(client::base_of(self.url))
    }

    /// The token that the draft stands for.
    pub open spec fn trimmed_auth(self) -> Option<Seq<char>> {
        non_empty(text::trimmed(self.token))
    }

    /// The draft is not the configuration in use.
    pub open spec fn is_pending(
        self,
        mode: TradeFetchMode,
        url: Option<Seq<char>>,
        auth: Option<Seq<char>>,
    ) -> bool {
        ||| self.mode() != mode
        ||| self.mode() == TradeFetchMode::Server && self.trimmed_url() != url
        ||| self.trimmed_auth() != auth
    }

    /// The form after a message, apart from what the message asks of the application.
    pub open spec fn after(self, msg: FetchMsg) -> FetchFormView {
        match msg {
            FetchMsg::ToggleShowToken(v) => FetchFormView { hide_token: v, ..self },
            FetchMsg::ServerUrlChanged(v) => FetchFormView { url: v@, ..self },
            FetchMsg::ServerAuthTokenChanged(v) => FetchFormView { token: v@, ..self },
            FetchMsg::ToggleFetchTrades(v) => FetchFormView { active: v, ..self },
            FetchMsg::SelectFetchMode(tag) => FetchFormView { tag, ..self },
            FetchMsg::ToggleServerConfig => FetchFormView { expanded: !self.expanded, ..self },
            FetchMsg::ConfirmClearAuth => FetchFormView {
                url: Seq::empty(),
                token: Seq::empty(),
                active: false,
                expanded: false,
                ..self
            },
            FetchMsg::RequestApplyFetch | FetchMsg::Cancel | FetchMsg::RequestClearAuth => self,
        }
    }
}

/// An optional text and its characters.
pub open spec fn option_is(s: Option<String>, v: Option<Seq<char>>) -> bool {
    network::text_view(s) == v
}

fn same_option(a: &Option<String>, b: &Option<String>) -> (r: bool)
    ensures
        r == (network::text_view(*a) == network::text_view(*b)),
{
    match (a, b) {
        (Some(x), Some(y)) => *x == *y,
        (None, None) => true,
        _ => false,
    }
}

impl FetchForm {
    /// The form filled in from the configuration in use.
    pub fn new(mode: TradeFetchMode, url: &Option<String>, auth_token: &Option<String>) -> (f:
        FetchForm)
        ensures
            f@ == (FetchFormView {
                url: match *url {
                    Some(u) => u@,
                    None => Seq::empty(),
                },
                token: match *auth_token {
                    Some(t) => t@,
                    None => Seq::empty(),
                },
                expanded: false,
                active: mode != TradeFetchMode::Off,
                tag: if mode == TradeFetchMode::Server {
                    FetchModeTag::Server
                } else {
                    FetchModeTag::Exchange
                },
                hide_token: true,
            }),
    {
        let server_url_input: String = match url {
            Some(u) => u.clone(),
            None => String::new(),
        };
        let server_auth_token_input: String = match auth_token {
            Some(t) => t.clone(),
            None => String::new(),
        };
        proof {
            assert(url is None ==> server_url_input@ =~= Seq::<char>::empty());
            assert(auth_token is None ==> server_auth_token_input@ =~= Seq::<char>::empty());
        }
        let draft_tag: FetchModeTag = match mode {
            TradeFetchMode::Server => FetchModeTag::Server,
            _ => FetchModeTag::Exchange,
        };
        FetchForm {
            server_url_input,
            server_auth_token_input,
            expanded_server: false,
            draft_active: mode != TradeFetchMode::Off,
            draft_tag,
            hide_token: true,
        }
    }

    /// The mode that the draft stands for.
    pub fn build_mode(&self) -> (m: TradeFetchMode)
        ensures
            m == self@.mode(),
    {
        if !self.draft_active {
            return TradeFetchMode::Off;
        }
        match self.draft_tag {
            FetchModeTag::Exchange => TradeFetchMode::Exchange,
            FetchModeTag::Server => TradeFetchMode::Server,
        }
    }

    /// The URL that the draft stands for.
    pub fn trimmed_url(&self) -> (r: Option<String>)
        ensures
            option_is(r, self@.trimmed_url()),
    {
        let outer: String = trim(self.server_url_input.as_str());
        let trimmed: String = trim_end_slashes(outer.as_str());
        if trimmed.as_str().is_empty() {
            None
        } else {
            Some(trimmed)
        }
    }

    /// The token that the draft stands for.
    pub fn trimmed_auth(&self) -> (r: Option<String>)
        ensures
            option_is(r, self@.trimmed_auth()),
    {
        let auth: String = trim(self.server_auth_token_input.as_str());
        if auth.as_str().is_empty() {
            None
        } else {
            Some(auth)
        }
    }

    /// Whether the draft is not the configuration in use.
    pub fn server_config_pending(
        &self,
        mode: TradeFetchMode,
        url: &Option<String>,
        auth: &Option<String>,
    ) -> (r: bool)
        ensures
            r == self@.is_pending(mode, network::text_view(*url), network::text_view(*auth)),
    {
        let draft_mode: TradeFetchMode = self.build_mode();
        if draft_mode != mode {
            return true;
        }
        (draft_mode == TradeFetchMode::Server && !same_option(&self.trimmed_url(), url))
            || !same_option(&self.trimmed_auth(), auth)
    }

    /// The source that is selected, if trades are fetched at all.
    pub fn selected_tag(&self) -> (r: Option<FetchModeTag>)
        ensures
            r == (if self@.active {
                Some(self@.tag)
            } else {
                None
            }),
    {
        if self.draft_active {
            Some(self.draft_tag)
        } else {
            None
        }
    }

    /// The buttons below the form.
    pub fn buttons(
        &self,
        confirm: ConfirmState,
        mode: TradeFetchMode,
        url: &Option<String>,
        auth: &Option<String>,
    ) -> (r: ButtonRow)
        ensures
            r == (if confirm == ConfirmState::FetchClear {
                ButtonRow::Confirm
            } else {
                let pending = self@.is_pending(
                    mode,
                    network::text_view(*url),
                    network::text_view(*auth),
                );
                ButtonRow::Actions {
                    pending_info: pending,
                    apply: pending,
                    clear: *auth is Some || (mode == TradeFetchMode::Server && *url is Some),
                }
            }),
    {
        match confirm {
            ConfirmState::FetchClear => ButtonRow::Confirm,
            _ => {
                let pending: bool = self.server_config_pending(mode, url, auth);
                ButtonRow::Actions {
                    pending_info: pending,
                    apply: pending,
                    clear: auth.is_some() || (mode == TradeFetchMode::Server && url.is_some()),
                }
            },
        }
    }

    /// Applies the draft. `url_is_valid` says whether the trimmed URL is one.
    pub fn apply(&self, error: &mut Option<String>, url_is_valid: bool) -> (action: Option<Action>)
        ensures
            network::text_view(*final(error)) == fetch_problem(self@, url_is_valid),
            fetch_problem(self@, url_is_valid) is Some ==> action is None,
            fetch_problem(self@, url_is_valid) is None ==> (action matches Some(
                Action::ApplyServerConfig { mode, url, auth_token },
            ) && mode == self@.mode() && option_is(url, self@.trimmed_url()) && option_is(
                auth_token,
                self@.trimmed_auth(),
            )),
    {
        *error = None;
        let url: Option<String> = self.trimmed_url();
        if self.draft_tag == FetchModeTag::Server && self.draft_active {
            let missing: bool = match &url {
                None => true,
                Some(u) => blank(u),
            };
            if missing {
                *error = Some("Server URL is required when mode is set to Server".to_owned());
                return None;
            }
            if !url_is_valid {
                *error = Some("Server URL is not a valid URL".to_owned());
                return None;
            }
        }
        Some(
            Action::ApplyServerConfig {
                mode: self.build_mode(),
                url,
                auth_token: self.trimmed_auth(),
            },
        )
    }

    /// Takes in a message.
    pub fn update(
        &mut self,
        message: FetchMsg,
        confirm: &mut ConfirmState,
        error: &mut Option<String>,
    ) -> (action: Option<Action>)
        ensures
            final(self)@ == old(self)@.after(message),
            *final(confirm) == (match message {
                FetchMsg::RequestClearAuth => ConfirmState::FetchClear,
                FetchMsg::ToggleShowToken(_) | FetchMsg::Cancel | FetchMsg::ConfirmClearAuth =>
                    ConfirmState::Idle,
                _ => *old(confirm),
            }),
            ({
                let url_is_valid = old(self)@.trimmed_url() matches Some(u) && client::url_parses(u);
                match message {
                    FetchMsg::Cancel => *final(error) == *old(error) && action is None,
                    FetchMsg::RequestApplyFetch => {
                        let problem = fetch_problem(old(self)@, url_is_valid);
                        &&& network::text_view(*final(error)) == problem
                        &&& problem is Some ==> action is None
                        &&& problem is None ==> (action matches Some(
                            Action::ApplyServerConfig { mode, url, auth_token },
                        ) && mode == old(self)@.mode() && option_is(url, old(self)@.trimmed_url())
                            && option_is(auth_token, old(self)@.trimmed_auth()))
                    },
                    FetchMsg::ConfirmClearAuth => *final(error) is None && action == Some(
                        Action::ApplyServerConfig {
                            mode: TradeFetchMode::Off,
                            url: None,
                            auth_token: None,
                        },
                    ),
                    _ => *final(error) is None && action is None,
                }
            }),
    {
        match message {
            FetchMsg::ToggleShowToken(v) => {
                self.hide_token = v;
                *confirm = ConfirmState::Idle;
                *error = None;
            },
            FetchMsg::ServerUrlChanged(v) => {
                self.server_url_input = v;
                *error = None;
            },
            FetchMsg::ServerAuthTokenChanged(v) => {
                self.server_auth_token_input = v;
                *error = None;
            },
            FetchMsg::ToggleFetchTrades(checked) => {
                *error = None;
                self.draft_active = checked;
            },
            FetchMsg::SelectFetchMode(tag) => {
                *error = None;
                self.draft_tag = tag;
            },
            FetchMsg::ToggleServerConfig => {
                *error = None;
                self.expanded_server = !self.expanded_server;
            },
            FetchMsg::RequestApplyFetch => {
                let url_is_valid: bool = match self.trimmed_url() {
                    Some(u) => parses_as_url(u.as_str()),
                    None => false,
                };
                return self.apply(error, url_is_valid);
            },
            FetchMsg::Cancel => {
                *confirm = ConfirmState::Idle;
            },
            FetchMsg::RequestClearAuth => {
                *confirm = ConfirmState::FetchClear;
                *error = None;
            },
            FetchMsg::ConfirmClearAuth => {
                *confirm = ConfirmState::Idle;
                *error = None;
                self.server_url_input = String::new();
                self.server_auth_token_input = String::new();
                self.draft_active = false;
                self.expanded_server = false;
                proof {
                    assert(self.server_url_input@ =~= Seq::<char>::empty());
                    assert(self.server_auth_token_input@ =~= Seq::<char>::empty());
                }
                return Some(
                    Action::ApplyServerConfig {
                        mode: TradeFetchMode::Off,
                        url: None,
                        auth_token: None,
                    },
                );
            },
        }
        None
    }
}

/// The network settings dialog.
#[derive(Debug, Clone)]
pub struct NetworkEditor {
    pub proxy: ProxyForm,
    pub fetch: FetchForm,
    pub confirm: ConfirmState,
    pub error: Option<String>,
    /// The configuration in use when the dialog was opened.
    pub effective: Network,
    /// The configuration that was applied and takes effect after a restart.
    pub pending_apply: Option<Network>,
}

/// An optional configuration as its texts.
pub open spec fn pending_view(n: Option<Network>) -> Option<network::NetworkView> {
    match n {
        Some(n) => Some(n@),
        None => None,
    }
}

/// The configuration after what the dialog asks for, or none where it asks for no change.
pub open spec fn applied(
    effective: network::NetworkView,
    action: Option<Action>,
) -> Option<network::NetworkView> {
    match action {
        Some(Action::ApplyProxy(cfg)) => Some(
            network::NetworkView { proxy: network::proxy_view(cfg), ..effective },
        ),
        Some(Action::ApplyServerConfig { mode, url, auth_token }) => Some(
            network::NetworkView {
                mode,
                url: network::text_view(url),
                token: network::text_view(auth_token),
                ..effective
            },
        ),
        _ => None,
    }
}

impl NetworkEditor {
    /// The dialog with its forms filled in from the configuration in use.
    pub fn new(network: &Network, pending_apply: Option<Network>) -> (e: NetworkEditor)
        ensures
            e.proxy@ == (match network.proxy {
                Some(p) => ProxyFormView::cleared().filled(p@),
                None => ProxyFormView::cleared(),
            }),
            e.fetch@ == (FetchFormView {
                url: match network.server_url {
                    Some(u) => u@,
                    None => Seq::empty(),
                },
                token: match network.server_auth_token {
                    Some(t) => t@,
                    None => Seq::empty(),
                },
                expanded: false,
                active: network.trade_fetch_mode != TradeFetchMode::Off,
                tag: if network.trade_fetch_mode == TradeFetchMode::Server {
                    FetchModeTag::Server
                } else {
                    FetchModeTag::Exchange
                },
                hide_token: true,
            }),
            e.confirm == ConfirmState::Idle,
            e.error is None,
            e.effective@ == network@,
            e.pending_apply == pending_apply,
    {
        let mut proxy = ProxyForm::new();
        proxy.populate_from(network.proxy.as_ref());
        let fetch = FetchForm::new(
            network.trade_fetch_mode,
            &network.server_url,
            &network.server_auth_token,
        );
        NetworkEditor {
            proxy,
            fetch,
            confirm: ConfirmState::Idle,
            error: None,
            effective: copy_network(network),
            pending_apply,
        }
    }

    /// Takes in a message. `parsed` is the proxy that the parts of the proxy form make, or what
    /// is wrong with them.
    pub fn update(&mut self, message: Message, parsed: Result<Proxy, String>) -> (action: Option<
        Action,
    >)
        ensures
            final(self).effective == old(self).effective,
            match message {
                Message::GoBack => {
                    &&& action == Some(Action::Exit)
                    &&& final(self).confirm == ConfirmState::Idle
                    &&& final(self).proxy == old(self).proxy
                    &&& final(self).fetch == old(self).fetch
                    &&& final(self).error == old(self).error
                },
                Message::Proxy(msg) => {
                    &&& final(self).proxy@ == old(self).proxy@.after(msg)
                    &&& final(self).fetch == old(self).fetch
                    &&& final(self).confirm == (match msg {
                        ProxyMsg::RequestClear => ConfirmState::ProxyClear,
                        _ => ConfirmState::Idle,
                    })
                    &&& action == (match msg {
                        ProxyMsg::RequestApply => match built_proxy(old(self).proxy@, parsed) {
                            Ok(cfg) => Some(Action::ApplyProxy(cfg)),
                            Err(_) => None,
                        },
                        ProxyMsg::Clear => Some(Action::ApplyProxy(None)),
                        _ => None,
                    })
                    &&& final(self).error == (match msg {
                        ProxyMsg::Cancel => old(self).error,
                        ProxyMsg::RequestApply => match built_proxy(old(self).proxy@, parsed) {
                            Ok(_) => None,
                            Err(e) => Some(e),
                        },
                        _ => None,
                    })
                },
                Message::Fetch(msg) => {
                    &&& final(self).fetch@ == old(self).fetch@.after(msg)
                    &&& final(self).proxy == old(self).proxy
                    &&& final(self).confirm == (match msg {
                        FetchMsg::RequestClearAuth => ConfirmState::FetchClear,
                        FetchMsg::ToggleShowToken(_)
                        | FetchMsg::Cancel
                        | FetchMsg::ConfirmClearAuth => ConfirmState::Idle,
                        _ => old(self).confirm,
                    })
                },
            },
            message matches Message::Fetch(FetchMsg::RequestApplyFetch) ==> {
                let form = old(self).fetch@;
                let url_is_valid = form.trimmed_url() matches Some(u) && client::url_parses(u);
                let problem = fetch_problem(form, url_is_valid);
                &&& network::text_view(final(self).error) == problem
                &&& problem is Some ==> action is None
                &&& problem is None ==> (action matches Some(
                    Action::ApplyServerConfig { mode, url, auth_token },
                ) && mode == form.mode() && option_is(url, form.trimmed_url()) && option_is(
                    auth_token,
                    form.trimmed_auth(),
                ))
            },
            message matches Message::Fetch(FetchMsg::ConfirmClearAuth) ==> action == Some(
                Action::ApplyServerConfig {
                    mode: TradeFetchMode::Off,
                    url: None,
                    auth_token: None,
                },
            ) && final(self).error is None,
            match message {
                Message::Fetch(FetchMsg::RequestApplyFetch)
                | Message::Fetch(FetchMsg::ConfirmClearAuth) => true,
                Message::Fetch(FetchMsg::Cancel) => action is None && final(self).error == old(
                    self).error,
                Message::Fetch(_) => action is None && final(self).error is None,
                _ => true,
            },
            match applied(old(self).effective@, action) {
                Some(n) => pending_view(final(self).pending_apply) == Some(n),
                None => final(self).pending_apply == old(self).pending_apply,
            },
    {
        match message {
            Message::GoBack => {
                self.confirm = ConfirmState::Idle;
                Some(Action::Exit)
            },
            Message::Proxy(msg) => {
                let action: Option<Action> = self.proxy.update(
                    msg,
                    &mut self.confirm,
                    &mut self.error,
                    parsed,
                );
                if let Some(Action::ApplyProxy(cfg)) = &action {
                    let mut next: Network = copy_network(&self.effective);
                    next.proxy = copy_proxy_option(cfg);
                    self.pending_apply = Some(next);
                }
                action
            },
            Message::Fetch(msg) => {
                let action: Option<Action> = self.fetch.update(
                    msg,
                    &mut self.confirm,
                    &mut self.error,
                );
                if let Some(Action::ApplyServerConfig { mode, url, auth_token }) = &action {
                    let mut next: Network = copy_network(&self.effective);
                    next.trade_fetch_mode = *mode;
                    next.server_url = copy_text(url);
                    next.server_auth_token = copy_text(auth_token);
                    self.pending_apply = Some(next);
                }
                action
            },
        }
    }

    /// The configuration that takes effect after a restart, if one was applied.
    pub fn pending_apply(&self) -> (r: Option<&Network>)
        ensures
            r == (match &self.pending_apply {
                Some(n) => Some(n),
                None => None,
            }),
    {
        self.pending_apply.as_ref()
    }
}

/// The text has no white space at its ends.
pub open spec fn is_tight(s: Seq<char>) -> bool {
    text::trimmed(s) == s
}

/// A proxy form that has just been filled in from the proxy in use has nothing to apply, where
/// the texts of the proxy have no white space at their ends.
pub proof fn filled_proxy_form_is_not_pending(form: ProxyFormView, p: network::ProxyView)
    requires
        is_tight(p.host),
        p.auth matches Some(a) ==> is_tight(a.0) && is_tight(a.1),
    ensures
        !form.filled(p).is_pending(Some(p)),
{
    let digits = text::decimal_digits(p.port as nat);
    text::lemma_decimal_is_digits(p.port as nat);
    assert('0' <= digits[0] <= '9' && '0' <= digits[digits.len() - 1] <= '9');
    text::lemma_trimmed_is_kept(digits);
    if p.auth is None {
        text::lemma_trimmed_is_kept(Seq::empty());
    }
}

/// Applying a cleared proxy form means no proxy, and there is something to apply exactly when a
/// proxy is in use.
pub proof fn cleared_proxy_form_means_no_proxy(
    form: ProxyFormView,
    effective: Option<network::ProxyView>,
    parsed: Result<Proxy, String>,
)
    ensures
        form.after(ProxyMsg::Clear).is_pending(effective) <==> effective is Some,
        built_proxy(form.after(ProxyMsg::Clear), parsed) == Ok::<Option<Proxy>, String>(None),
{
    text::lemma_trimmed_is_kept(Seq::empty());
    if let Some(p) = effective {
        text::lemma_decimal_is_digits(p.port as nat);
    }
}

/// Cancelling a question keeps both drafts.
pub proof fn cancelling_keeps_the_drafts(proxy: ProxyFormView, fetch: FetchFormView)
    ensures
        proxy.after(ProxyMsg::Cancel) == proxy,
        fetch.after(FetchMsg::Cancel) == fetch,
{
}

/// Once a draft of the trade-fetch settings has been applied, the same draft is no longer
/// pending against the configuration that it was applied as.
pub proof fn applied_fetch_draft_is_not_pending(
    form: FetchFormView,
    effective: network::NetworkView,
    action: Option<Action>,
)
    requires
        action matches Some(Action::ApplyServerConfig { mode, url, auth_token }) && mode
            == form.mode() && option_is(url, form.trimmed_url()) && option_is(
            auth_token,
            form.trimmed_auth(),
        ),
    ensures
        ({
            let next = applied(effective, action)->0;
            !form.is_pending(next.mode, next.url, next.token)
        }),
{
}

/// A trade-fetch form that has just been filled in from the configuration in use has nothing to
/// apply, where its URL and token are neither empty nor padded and the URL does not end in a
/// slash.
pub proof fn filled_fetch_form_is_not_pending(form: FetchFormView, effective: network::NetworkView)
    requires
        form.active == (effective.mode != TradeFetchMode::Off),
        form.tag == (if effective.mode == TradeFetchMode::Server {
            FetchModeTag::Server
        } else {
            FetchModeTag::Exchange
        }),
        form.url == (match effective.url {
            Some(u) => u,
            None => Seq::empty(),
        }),
        form.token == (match effective.token {
            Some(t) => t,
            None => Seq::empty(),
        }),
        effective.url matches Some(u) ==> u.len() > 0 && client::base_of(u) == u,
        effective.token matches Some(t) ==> t.len() > 0 && is_tight(t),
    ensures
        !form.is_pending(effective.mode, effective.url, effective.token),
{
    text::lemma_trimmed_is_kept(Seq::empty());
}

} // verus!
