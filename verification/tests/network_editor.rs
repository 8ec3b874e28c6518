use flowsurface::connector::network::{Network, Proxy, ProxyAuth, ProxyScheme, TradeFetchMode};
use flowsurface::network_editor::{
    Action, ButtonRow, ConfirmState, FetchForm, FetchModeTag, FetchMsg, Message, NetworkEditor,
    ProxyForm, ProxyMsg,
};

fn proxy() -> Proxy {
    Proxy {
        scheme: ProxyScheme::Socks5,
        host: "localhost".to_string(),
        port: 1080,
        auth: Some(ProxyAuth { username: "u".to_string(), password: "p".to_string() }),
    }
}

fn network() -> Network {
    Network {
        proxy: Some(proxy()),
        trade_fetch_mode: TradeFetchMode::Exchange,
        server_url: None,
        server_auth_token: None,
    }
}

fn no_proxy() -> Result<Proxy, String> {
    Err("not built".to_string())
}

#[test]
fn a_filled_form_is_not_pending() {
    let mut f = ProxyForm::new();
    assert!(f.is_empty());
    f.populate_from(Some(&proxy()));
    assert_eq!(f.host, "localhost");
    assert_eq!(f.port, "1080");
    assert!(!f.is_pending(Some(&proxy())));
    f.host = "other".to_string();
    assert!(f.is_pending(Some(&proxy())));
}

#[test]
fn an_empty_form_means_no_proxy() {
    let f = ProxyForm::new();
    assert!(matches!(f.build_from_parts(no_proxy()), Ok(None)));
    assert!(f.is_pending(Some(&proxy())));
    assert!(!f.is_pending(None));
    assert!(matches!(
        f.buttons(Some(&proxy()), ConfirmState::Idle),
        ButtonRow::Actions { pending_info: true, apply: true, clear: true }
    ));
    let mut g = ProxyForm::new();
    g.populate_from(Some(&proxy()));
    assert!(matches!(g.build_from_parts(Ok(proxy())), Ok(Some(_))));
    assert!(matches!(g.build_from_parts(Err("bad".to_string())), Err(e) if e == "bad"));
}

#[test]
fn clearing_a_proxy_has_to_be_confirmed() {
    let mut e = NetworkEditor::new(&network(), None);
    assert!(e.update(Message::Proxy(ProxyMsg::RequestClear), no_proxy()).is_none());
    assert_eq!(e.confirm, ConfirmState::ProxyClear);
    assert!(matches!(
        e.proxy.buttons(None, e.confirm),
        ButtonRow::Confirm
    ));
    assert!(e.update(Message::Proxy(ProxyMsg::Cancel), no_proxy()).is_none());
    assert_eq!(e.confirm, ConfirmState::Idle);
    assert_eq!(e.proxy.host, "localhost");
    e.update(Message::Proxy(ProxyMsg::RequestClear), no_proxy());
    assert!(matches!(
        e.update(Message::Proxy(ProxyMsg::Clear), no_proxy()),
        Some(Action::ApplyProxy(None))
    ));
    assert!(e.proxy.is_empty());
}

#[test]
fn a_proxy_that_cannot_be_built_is_an_error() {
    let mut e = NetworkEditor::new(&network(), None);
    e.update(Message::Proxy(ProxyMsg::PortChanged("x".to_string())), no_proxy());
    let r = e.update(Message::Proxy(ProxyMsg::RequestApply), Err("Invalid port".to_string()));
    assert!(r.is_none());
    assert_eq!(e.error, Some("Invalid port".to_string()));
}

#[test]
fn the_editor_can_be_left() {
    let mut e = NetworkEditor::new(&network(), None);
    assert!(matches!(e.update(Message::GoBack, no_proxy()), Some(Action::Exit)));
    assert!(e.pending_apply().is_none());
}

#[test]
fn a_server_needs_a_url() {
    let f = FetchForm::new(TradeFetchMode::Server, &None, &None);
    assert_eq!(f.build_mode(), TradeFetchMode::Server);
    let mut error = None;
    assert!(f.apply(&mut error, true).is_none());
    assert_eq!(
        error,
        Some("Server URL is required when mode is set to Server".to_string())
    );
    let mut g = FetchForm::new(
        TradeFetchMode::Server,
        &Some(" http://a ".to_string()),
        &Some(" ".to_string()),
    );
    assert_eq!(g.trimmed_url(), Some("http://a".to_string()));
    assert_eq!(g.trimmed_auth(), None);
    let mut error = None;
    assert!(g.apply(&mut error, false).is_none());
    assert_eq!(error, Some("Server URL is not a valid URL".to_string()));
    let mut error = Some("old".to_string());
    assert!(matches!(
        g.apply(&mut error, true),
        Some(Action::ApplyServerConfig { mode: TradeFetchMode::Server, .. })
    ));
    let mut confirm = ConfirmState::Idle;
    g.update(FetchMsg::ToggleFetchTrades(false), &mut confirm, &mut error);
    assert_eq!(g.build_mode(), TradeFetchMode::Off);
    assert_eq!(g.selected_tag(), None);
}

#[test]
fn modes_are_selected_by_tag() {
    let mut f = FetchForm::new(TradeFetchMode::Exchange, &None, &None);
    assert_eq!(f.selected_tag(), Some(FetchModeTag::Exchange));
    let mut confirm = ConfirmState::Idle;
    let mut error = None;
    f.update(FetchMsg::SelectFetchMode(FetchModeTag::Server), &mut confirm, &mut error);
    assert_eq!(f.build_mode(), TradeFetchMode::Server);
    assert!(f.server_config_pending(TradeFetchMode::Exchange, &None, &None));
    assert!(!FetchForm::new(TradeFetchMode::Off, &None, &None).server_config_pending(
        TradeFetchMode::Off,
        &None,
        &None
    ));
}
