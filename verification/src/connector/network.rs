//! The network configuration: proxy, trade-fetch source and market-data server.
use vstd::prelude::*;

verus! {

/// Where historical trades come from.
#[derive(Debug, Clone, Copy, PartialEq, Eq, Structural)]
pub enum TradeFetchMode {
    Off,
    Exchange,
    Server,
}

/// Whether a source of historical trades is active.
pub fn is_trade_fetch_enabled(mode: TradeFetchMode) -> (r: bool)
    ensures
        r == (mode != TradeFetchMode::Off),
{
    mode != TradeFetchMode::Off
}

#[derive(Debug, Clone, Copy, PartialEq, Eq, Structural)]
pub enum ProxyScheme {
    Http,
    Https,
    Socks5,
    Socks5h,
}

/// The credentials of a proxy.
#[derive(Debug, Clone)]
pub struct ProxyAuth {
    pub username: String,
    pub password: String,
}

/// A proxy that all connections go through.
#[derive(Debug, Clone)]
pub struct Proxy {
    pub scheme: ProxyScheme,
    pub host: String,
    pub port: u16,
    pub auth: Option<ProxyAuth>,
}

/// The whole network configuration.
#[derive(Debug, Clone)]
pub struct Network {
    pub proxy: Option<Proxy>,
    pub trade_fetch_mode: TradeFetchMode,
    pub server_url: Option<String>,
    pub server_auth_token: Option<String>,
}

/// A proxy as its texts.
pub struct ProxyView {
    pub scheme: ProxyScheme,
    pub host: Seq<char>,
    pub port: u16,
    pub auth: Option<(Seq<char>, Seq<char>)>,
}

/// An optional text as its characters.
pub open spec fn text_view(s: Option<String>) -> Option<Seq<char>> {
    match s {
        Some(s) => Some(s@),
        None => None,
    }
}

/// An optional proxy as its texts.
pub open spec fn proxy_view(p: Option<Proxy>) -> Option<ProxyView> {
    match p {
        Some(p) => Some(p@),
        None => None,
    }
}

/// A network configuration as its texts.
pub struct NetworkView {
    pub proxy: Option<ProxyView>,
    pub mode: TradeFetchMode,
    pub url: Option<Seq<char>>,
    pub token: Option<Seq<char>>,
}

impl View for Proxy {
    type V = ProxyView;

    open spec fn view(&self) -> ProxyView {
        ProxyView {
            scheme: self.scheme,
            host: self.host@,
            port: self.port,
            auth: match self.auth {
                Some(a) => Some((a.username@, a.password@)),
                None => None,
            },
        }
    }
}

impl View for Network {
    type V = NetworkView;

    open spec fn view(&self) -> NetworkView {
        NetworkView {
            proxy: proxy_view(self.proxy),
            mode: self.trade_fetch_mode,
            url: text_view(self.server_url),
            token: text_view(self.server_auth_token),
        }
    }
}

/// A copy of an optional text.
pub fn copy_text(s: &Option<String>) -> (r: Option<String>)
    ensures
        text_view(r) == text_view(*s),
{
    match s {
        Some(t) => Some(t.clone()),
        None => None,
    }
}

/// A copy of a proxy.
pub fn copy_proxy(p: &Proxy) -> (r: Proxy)
    ensures
        r@ == p@,
{
    let auth: Option<ProxyAuth> = match &p.auth {
        Some(a) => Some(
            ProxyAuth { username: a.username.clone(), password: a.password.clone() },
        ),
        None => None,
    };
    Proxy { scheme: p.scheme, host: p.host.clone(), port: p.port, auth }
}

/// A copy of an optional proxy.
pub fn copy_proxy_option(p: &Option<Proxy>) -> (r: Option<Proxy>)
    ensures
        proxy_view(r) == proxy_view(*p),
{
    match p {
        Some(p) => Some(copy_proxy(p)),
        None => None,
    }
}

/// A copy of a configuration.
pub fn copy_network(n: &Network) -> (r: Network)
    ensures
        r@ == n@,
{
    Network {
        proxy: copy_proxy_option(&n.proxy),
        trade_fetch_mode: n.trade_fetch_mode,
        server_url: copy_text(&n.server_url),
        server_auth_token: copy_text(&n.server_auth_token),
    }
}

} // verus!
