//! What holds of texts and forms, said of their characters and fields: trimming takes nothing but
//! the ends, numbers can be read back, and a form is pending just where it says something else.
use crate::connector::client;
use crate::connector::network;
use crate::connector::network::TradeFetchMode;
use crate::float_bits::{F32Bits, F64Bits};
use crate::indicator::smc_structure::{FvgZone, StructureLevel};
use crate::indicator::smc_view;
use crate::interaction;
use crate::logger;
use crate::logger::LogLevel;
use crate::network_editor;
use crate::network_editor::{FetchFormView, FetchModeTag, FetchMsg, ProxyFormView, ProxyMsg};
use crate::text;
use vstd::prelude::*;

verus! {

/// Every character of the text is white space.
pub open spec fn all_space(s: Seq<char>) -> bool {
    forall|i: int| 0 <= i < s.len() ==> text::is_space(#[trigger] s[i])
}

/// Every character of the text is `c`.
pub open spec fn all_are(s: Seq<char>, c: char) -> bool {
    forall|i: int| 0 <= i < s.len() ==> #[trigger] s[i] == c
}

/// Among the first characters of the alphabet, blanks, tabs and what ends a line or a page count as
/// white space, and nothing else.
pub proof fn plain_white_space_is_blanks_and_line_ends(c: char)
    requires
        (c as u32) < 128,
    ensures
        text::is_space(c) <==> c == ' ' || c == '\t' || c == '\n' || c == '\r' || c as u32 == 11
            || c as u32 == 12,
{
}

proof fn lemma_leading(s: Seq<char>) -> (lead: Seq<char>)
    ensures
        s == lead + text::without_leading(s),
        all_space(lead),
    decreases s.len(),
{
    if s.len() > 0 && text::is_space(s[0]) {
        let rest = s.drop_first();
        let lead = lemma_leading(rest);
        let all = seq![s[0]] + lead;
        assert(s =~= seq![s[0]] + rest);
        assert(s =~= all + text::without_leading(rest));
        assert forall|i: int| 0 <= i < all.len() implies text::is_space(#[trigger] all[i]) by {
            if i > 0 {
                assert(all[i] == lead[i - 1]);
            }
        }
        all
    } else {
        assert(s =~= Seq::<char>::empty() + s);
        Seq::empty()
    }
}

proof fn lemma_trailing(s: Seq<char>) -> (trail: Seq<char>)
    ensures
        s == text::without_trailing(s) + trail,
        all_space(trail),
    decreases s.len(),
{
    if s.len() > 0 && text::is_space(s.last()) {
        let rest = s.drop_last();
        let trail = lemma_trailing(rest);
        let all = trail.push(s.last());
        assert(s =~= rest.push(s.last()));
        assert(s =~= text::without_trailing(rest) + all);
        assert forall|i: int| 0 <= i < all.len() implies text::is_space(#[trigger] all[i]) by {
            if i < trail.len() {
                assert(all[i] == trail[i]);
            }
        }
        all
    } else {
        assert(s =~= s + Seq::<char>::empty());
        Seq::empty()
    }
}

/// Trimming takes white space from the two ends and nothing else: what it took is found.
pub proof fn trimming_takes_only_the_ends(s: Seq<char>) -> (ends: (Seq<char>, Seq<char>))
    ensures
        s == ends.0 + text::trimmed(s) + ends.1,
        all_space(ends.0),
        all_space(ends.1),
{
    let lead = lemma_leading(s);
    let rest = text::without_leading(s);
    let trail = lemma_trailing(rest);
    assert(s =~= lead + text::trimmed(s) + trail);
    (lead, trail)
}

/// Stripping a character from the end takes all of it there and nothing else: what it took is
/// found.
pub proof fn stripping_takes_only_the_end(s: Seq<char>, c: char) -> (end: Seq<char>)
    ensures
        s == text::without_trailing_char(s, c) + end,
        all_are(end, c),
        text::without_trailing_char(s, c).len() > 0 ==> text::without_trailing_char(s, c).last()
            != c,
    decreases s.len(),
{
    if s.len() > 0 && s.last() == c {
        let rest = s.drop_last();
        let end = stripping_takes_only_the_end(rest, c);
        let all = end.push(c);
        assert(s =~= rest.push(c));
        assert(s =~= text::without_trailing_char(rest, c) + all);
        assert forall|i: int| 0 <= i < all.len() implies #[trigger] all[i] == c by {
            if i < end.len() {
                assert(all[i] == end[i]);
            }
        }
        all
    } else {
        assert(s =~= s + Seq::<char>::empty());
        Seq::empty()
    }
}

/// A base URL ends in no slash, and what was taken from the URL is white space around it and the
/// slashes at its end: the three parts taken are found.
pub proof fn base_urls_lose_only_spaces_and_slashes(url: Seq<char>) -> (parts: (
    Seq<char>,
    Seq<char>,
    Seq<char>,
))
    ensures
        url == parts.0 + client::base_of(url) + parts.1 + parts.2,
        all_space(parts.0),
        all_are(parts.1, '/'),
        all_space(parts.2),
        client::base_of(url).len() > 0 ==> client::base_of(url).last() != '/',
{
    let ends = trimming_takes_only_the_ends(url);
    let t = text::trimmed(url);
    let slashes = stripping_takes_only_the_end(t, '/');
    assert(url =~= ends.0 + client::base_of(url) + slashes + ends.1);
    (ends.0, slashes, ends.1)
}

/// The number that digits stand for.
pub open spec fn number_of(digits: Seq<char>) -> int
    decreases digits.len(),
{
    if digits.len() == 0 {
        0
    } else {
        10 * number_of(digits.drop_last()) + (digits.last() as u32 - 48)
    }
}

/// A number can be read back from its digits, and does not start with a zero unless it is one.
pub proof fn numbers_can_be_read_back(n: nat)
    ensures
        number_of(text::decimal_digits(n)) == n,
        text::decimal_digits(n).len() > 0,
        n > 0 ==> text::decimal_digits(n)[0] != '0',
    decreases n,
{
    let d = text::decimal_digits(n);
    if n < 10 {
        assert(d.drop_last() =~= Seq::<char>::empty());
        assert(d.last() as u32 == 48 + n);
        assert(number_of(d.drop_last()) == 0);
    } else {
        numbers_can_be_read_back(n / 10);
        assert(d.drop_last() =~= text::decimal_digits(n / 10));
        assert(d.last() as u32 == 48 + n % 10);
    }
}

/// A number with at least two digits can be read back, too.
pub proof fn two_digits_can_be_read_back(n: nat)
    ensures
        number_of(text::two_digits(n)) == n,
        text::two_digits(n).len() >= 2,
        n < 100 ==> text::two_digits(n).len() == 2,
{
    numbers_can_be_read_back(n);
    let t = text::two_digits(n);
    if n < 10 {
        assert(t =~= seq!['0', text::digit(n as int)]);
        assert(t.drop_last() =~= seq!['0']);
        assert(seq!['0'].drop_last() =~= Seq::<char>::empty());
        assert(number_of(Seq::<char>::empty()) == 0);
        assert(number_of(seq!['0']) == 0);
        assert(t.last() as u32 == 48 + n);
    } else {
        let head = text::decimal_digits(n / 10);
        assert(head.len() > 0) by {
            numbers_can_be_read_back(n / 10);
        }
        if n < 100 {
            assert(head.len() == 1);
        }
    }
}

/// A field is blank just if it holds nothing but white space.
pub proof fn blank_fields_hold_only_spaces(s: Seq<char>)
    ensures
        network_editor::is_blank(s) <==> all_space(s),
{
    let ends = trimming_takes_only_the_ends(s);
    if network_editor::is_blank(s) {
        assert(s =~= ends.0 + ends.1);
    } else if all_space(s) {
        text::trimming_leaves_no_white_ends(s);
        let t = text::trimmed(s);
        assert(t[0] == s[ends.0.len() as int]);
    }
}

/// After a form has been filled in from the proxy in use, changing a field makes it pending just if
/// the field then says something else than the proxy.
pub proof fn a_changed_field_is_pending(
    form: ProxyFormView,
    p: network::ProxyView,
    v: String,
)
    requires
        network_editor::is_tight(p.host),
        p.auth matches Some(a) && network_editor::is_tight(a.0) && network_editor::is_tight(a.1),
    ensures
        ({
            let filled = form.filled(p);
            let t = text::trimmed(v@);
            &&& filled.after(ProxyMsg::HostChanged(v)).is_pending(Some(p)) <==> t != p.host
            &&& filled.after(ProxyMsg::PortChanged(v)).is_pending(Some(p)) <==> t
                != text::decimal_digits(p.port as nat)
            &&& filled.after(ProxyMsg::UsernameChanged(v)).is_pending(Some(p)) <==> t
                != (p.auth->0).0
            &&& filled.after(ProxyMsg::PasswordChanged(v)).is_pending(Some(p)) <==> t
                != (p.auth->0).1
        }),
{
    network_editor::filled_proxy_form_is_not_pending(form, p);
}

/// Another scheme is pending, whatever else the form says; showing the password never is.
pub proof fn a_changed_scheme_is_pending(
    form: ProxyFormView,
    p: network::ProxyView,
    scheme: network::ProxyScheme,
    hide: bool,
)
    ensures
        scheme != p.scheme ==> form.after(ProxyMsg::SchemeChanged(scheme)).is_pending(Some(p)),
        form.after(ProxyMsg::ToggleShowPassword(hide)).is_pending(Some(p)) == form.is_pending(
            Some(p),
        ),
{
}

/// Each message changes the field that it is about and no other.
pub proof fn messages_change_their_own_field(form: ProxyFormView, v: String)
    ensures
        ({
            let host = form.after(ProxyMsg::HostChanged(v));
            let port = form.after(ProxyMsg::PortChanged(v));
            let user = form.after(ProxyMsg::UsernameChanged(v));
            let pass = form.after(ProxyMsg::PasswordChanged(v));
            &&& host.host == v@ && host.port == form.port && host.username == form.username
                && host.password == form.password && host.scheme == form.scheme
            &&& port.port == v@ && port.host == form.host && port.username == form.username
                && port.password == form.password && port.scheme == form.scheme
            &&& user.username == v@ && user.host == form.host && user.port == form.port
                && user.password == form.password && user.scheme == form.scheme
            &&& pass.password == v@ && pass.host == form.host && pass.port == form.port
                && pass.username == form.username && pass.scheme == form.scheme
        }),
{
}

/// Without a proxy in use, a form is pending as soon as one of its fields holds something.
pub proof fn any_entry_is_pending_without_a_proxy(form: ProxyFormView)
    ensures
        form.is_pending(None) <==> !(all_space(form.host) && all_space(form.port) && all_space(
            form.username,
        ) && all_space(form.password)),
{
    blank_fields_hold_only_spaces(form.host);
    blank_fields_hold_only_spaces(form.port);
    blank_fields_hold_only_spaces(form.username);
    blank_fields_hold_only_spaces(form.password);
}

/// Trades are fetched from where the form says, once they are switched on, and from nowhere before.
pub proof fn switched_off_means_off(form: FetchFormView, tag: FetchModeTag)
    ensures
        form.after(FetchMsg::ToggleFetchTrades(false)).mode() == TradeFetchMode::Off,
        form.after(FetchMsg::SelectFetchMode(tag)).after(FetchMsg::ToggleFetchTrades(true)).mode()
            == (match tag {
            FetchModeTag::Exchange => TradeFetchMode::Exchange,
            FetchModeTag::Server => TradeFetchMode::Server,
        }),
        form.after(FetchMsg::ConfirmClearAuth).mode() == TradeFetchMode::Off,
        form.after(FetchMsg::ConfirmClearAuth).trimmed_auth() is None,
        form.after(FetchMsg::ConfirmClearAuth).trimmed_url() is None,
{
    text::lemma_trimmed_is_kept(Seq::empty());
}

/// A draft can be applied unless it asks for the server without a URL or with one that is none.
pub proof fn only_a_server_needs_a_url(form: FetchFormView, url_is_valid: bool)
    ensures
        network_editor::fetch_problem(form, url_is_valid) is Some <==> form.mode()
            == TradeFetchMode::Server && (form.trimmed_url() is None || all_space(
            form.trimmed_url()->0,
        ) || !url_is_valid),
{
    if form.trimmed_url() is Some {
        blank_fields_hold_only_spaces(form.trimmed_url()->0);
    }
}

/// The URL of a draft counts only where the server is asked for; the mode and the token always do.
pub proof fn urls_count_only_for_the_server(
    form: FetchFormView,
    mode: TradeFetchMode,
    url: Option<Seq<char>>,
    auth: Option<Seq<char>>,
)
    ensures
        form.mode() != mode ==> form.is_pending(mode, url, auth),
        form.trimmed_auth() != auth ==> form.is_pending(mode, url, auth),
        form.mode() == mode && form.trimmed_auth() == auth ==> (form.is_pending(mode, url, auth)
            <==> mode == TradeFetchMode::Server && form.trimmed_url() != url),
{
}

/// Levels of the log are named whatever the case of the letters: texts that differ in nothing else
/// name the same level.
pub proof fn level_names_ignore_case(a: Seq<char>, b: Seq<char>)
    requires
        logger::same_letters(a, b),
    ensures
        logger::level_named(a) == logger::level_named(b),
{
}

/// A level is drawn just if some moment between its swing point and its confirmation is visible.
pub proof fn visible_levels_touch_the_view(
    level: StructureLevel,
    earliest: u64,
    latest: u64,
)
    requires
        level.from_time <= level.confirmed_time,
        earliest <= latest,
    ensures
        smc_view::level_shows(level, earliest, latest) <==> exists|t: u64|
            #![trigger touches(t, earliest, latest)]
            touches(t, earliest, latest) && level.from_time <= t <= level.confirmed_time,
{
    if smc_view::level_shows(level, earliest, latest) {
        let t = if level.from_time > earliest {
            level.from_time
        } else {
            earliest
        };
        assert(touches(t, earliest, latest));
    }
}

/// A moment is visible.
pub open spec fn touches(t: u64, earliest: u64, latest: u64) -> bool {
    earliest <= t <= latest
}

/// A gap is drawn just if some moment of it is visible; one that is still open lasts to the end of
/// the view.
pub proof fn visible_gaps_touch_the_view(zone: FvgZone, earliest: u64, latest: u64)
    requires
        zone.end_time matches Some(t) ==> zone.start_time <= t,
        earliest <= latest,
    ensures
        smc_view::fvg_shows(zone, earliest, latest) <==> exists|t: u64|
            #![trigger touches(t, earliest, latest)]
            touches(t, earliest, latest) && zone.start_time <= t && (zone.end_time matches Some(end)
                ==> t <= end),
{
    if smc_view::fvg_shows(zone, earliest, latest) {
        let t = if zone.start_time > earliest {
            zone.start_time
        } else {
            earliest
        };
        assert(touches(t, earliest, latest));
    }
}

/// A cleared form is blank and hides the password; what it shows cannot be told from a form in
/// which nothing was entered.
pub proof fn cleared_forms_are_blank()
    ensures
        ({
            let f = ProxyFormView::cleared();
            &&& f.host.len() == 0 && f.port.len() == 0 && f.username.len() == 0 && f.password.len()
                == 0
            &&& f.hide_password
            &&& !f.is_pending(None)
        }),
{
    text::lemma_trimmed_is_kept(Seq::empty());
}

/// Numbers are in the order of their bits where they are not negative, in the opposite order where
/// they are, and the negative ones come first; both zeros are the same.
pub proof fn numbers_are_ordered_by_their_bits(a: F32Bits, b: F32Bits)
    requires
        !a.is_nan(),
        !b.is_nan(),
    ensures
        a.bits < 0x8000_0000 && b.bits < 0x8000_0000 ==> (a.spec_lt(b) <==> a.bits < b.bits),
        a.bits >= 0x8000_0000 && b.bits >= 0x8000_0000 ==> (a.spec_lt(b) <==> a.bits > b.bits),
        a.bits > 0x8000_0000 && b.bits < 0x8000_0000 ==> a.spec_lt(b),
        a.bits < 0x8000_0000 && b.bits >= 0x8000_0000 ==> !a.spec_lt(b),
        a.spec_le(b) <==> !b.spec_lt(a),
        a.spec_equals(b) <==> a.bits == b.bits || a.bits % 0x8000_0000 == 0 && b.bits % 0x8000_0000
            == 0,
        interaction::differs(a, b) <==> !a.spec_equals(b),
        interaction::is_positive(a) <==> 0 < a.bits < 0x8000_0000,
{
}

/// What is no number has all bits of the exponent and one more, and is neither less, equal nor
/// greater than anything.
pub proof fn what_is_no_number_has_no_order(a: F32Bits, b: F32Bits)
    ensures
        a.is_nan() <==> a.bits % 0x8000_0000 > 0x7f80_0000,
        a.is_nan() || b.is_nan() ==> !a.spec_lt(b) && !a.spec_le(b) && !a.spec_equals(b),
        a.is_nan() ==> interaction::differs(a, b) && !interaction::is_positive(a),
{
}

/// Of two numbers the larger and the smaller are found, and what is no number gives way.
pub proof fn extremes_are_one_of_the_two(a: F32Bits, b: F32Bits)
    ensures
        a.spec_max(b) == a || a.spec_max(b) == b,
        a.spec_min(b) == a || a.spec_min(b) == b,
        !a.is_nan() && !b.is_nan() ==> a.spec_le(a.spec_max(b)) && b.spec_le(a.spec_max(b)),
        !a.is_nan() && !b.is_nan() ==> a.spec_min(b).spec_le(a) && a.spec_min(b).spec_le(b),
        !a.is_nan() && b.is_nan() ==> a.spec_max(b) == a && a.spec_min(b) == a,
        a.is_nan() && !b.is_nan() ==> a.spec_max(b) == b && a.spec_min(b) == b,
{
}

/// The same holds of the wider numbers; in their total order what is no number stands at the ends.
pub proof fn wide_numbers_are_ordered_by_their_bits(a: F64Bits, b: F64Bits)
    ensures
        a.is_nan() <==> a.bits % 0x8000_0000_0000_0000 > 0x7ff0_0000_0000_0000,
        a.bits < 0x8000_0000_0000_0000 && b.bits < 0x8000_0000_0000_0000 && !a.is_nan()
            && !b.is_nan() ==> (a.spec_lt(b) <==> a.bits < b.bits),
        a.bits >= 0x8000_0000_0000_0000 && b.bits >= 0x8000_0000_0000_0000 && !a.is_nan()
            && !b.is_nan() ==> (a.spec_lt(b) <==> a.bits > b.bits),
        a.bits > 0x8000_0000_0000_0000 && b.bits < 0x8000_0000_0000_0000 && !a.is_nan()
            && !b.is_nan() ==> a.spec_lt(b),
        a.spec_lt(b) ==> a.total_rank() < b.total_rank() && !b.spec_lt(a) && b.spec_ge(a)
            && a.spec_le(b),
        a.total_rank() == b.total_rank() <==> a.bits == b.bits,
        a.is_nan() ==> !a.spec_lt(b) && !a.spec_ge(b) && !a.spec_le(b),
        a.is_nan() && !b.is_nan() ==> (a.total_rank() > b.total_rank() <==> a.bits
            < 0x8000_0000_0000_0000),
{
}

/// Wide numbers that are not in order the other way round are in order.
pub proof fn wide_numbers_are_in_one_order(a: F64Bits, b: F64Bits)
    requires
        !a.is_nan(),
        !b.is_nan(),
    ensures
        a.spec_le(b) <==> !b.spec_lt(a),
        a.spec_ge(b) <==> !a.spec_lt(b),
        a.spec_le(b) && b.spec_le(a) <==> a.bits == b.bits || a.bits % 0x8000_0000_0000_0000 == 0
            && b.bits % 0x8000_0000_0000_0000 == 0,
{
}

/// Beyond the first characters of the alphabet, white space is what the character database lists.
pub proof fn wide_white_space_is_listed(c: char)
    requires
        c as u32 >= 128,
    ensures
        text::is_space(c) <==> seq![
            0x85u32,
            0xa0u32,
            0x1680u32,
            0x2000u32,
            0x2001u32,
            0x2002u32,
            0x2003u32,
            0x2004u32,
            0x2005u32,
            0x2006u32,
            0x2007u32,
            0x2008u32,
            0x2009u32,
            0x200au32,
            0x2028u32,
            0x2029u32,
            0x202fu32,
            0x205fu32,
            0x3000u32,
        ].contains(c as u32),
{
    let s = seq![
        0x85u32,
        0xa0u32,
        0x1680u32,
        0x2000u32,
        0x2001u32,
        0x2002u32,
        0x2003u32,
        0x2004u32,
        0x2005u32,
        0x2006u32,
        0x2007u32,
        0x2008u32,
        0x2009u32,
        0x200au32,
        0x2028u32,
        0x2029u32,
        0x202fu32,
        0x205fu32,
        0x3000u32,
    ];
    assert(s[0] == 0x85 && s[1] == 0xa0 && s[2] == 0x1680 && s[3] == 0x2000 && s[4] == 0x2001
        && s[5] == 0x2002 && s[6] == 0x2003 && s[7] == 0x2004 && s[8] == 0x2005 && s[9] == 0x2006);
    assert(s[10] == 0x2007 && s[11] == 0x2008 && s[12] == 0x2009 && s[13] == 0x200a && s[14]
        == 0x2028 && s[15] == 0x2029 && s[16] == 0x202f && s[17] == 0x205f && s[18] == 0x3000);
}

/// A rating is written with as many black stars as it has.
pub proof fn ratings_are_written_in_stars(n: nat, i: int)
    ensures
        text::stars(n).len() == n,
        0 <= i < n ==> text::stars(n)[i] as u32 == 0x2605,
{
}

/// The small letters become the large ones, which stand thirty-two places before them, and no other
/// character changes.
pub proof fn only_small_letters_change_case(c: char)
    ensures
        97 <= c as u32 <= 122 ==> logger::ascii_upper(c) as u32 == c as u32 - 32,
        !(97 <= c as u32 <= 122) ==> logger::ascii_upper(c) == c,
{
}

/// The name of a level.
pub open spec fn level_name(level: LogLevel) -> Seq<char> {
    match level {
        LogLevel::Error => "ERROR"@,
        LogLevel::Warn => "WARN"@,
        LogLevel::Info => "INFO"@,
        LogLevel::Debug => "DEBUG"@,
        LogLevel::Trace => "TRACE"@,
    }
}

/// A text names a level just if it is the level's name but for the case of its letters.
pub proof fn levels_are_known_by_their_names(s: Seq<char>, level: LogLevel)
    ensures
        logger::level_named(s) == Some(level) <==> logger::same_letters(s, level_name(level)),
{
    reveal_strlit("ERROR");
    reveal_strlit("WARN");
    reveal_strlit("INFO");
    reveal_strlit("DEBUG");
    reveal_strlit("TRACE");
    let up = |c: char| logger::ascii_upper(c);
    assert("ERROR"@.map_values(up)[0] == 'E');
    assert("WARN"@.map_values(up)[0] == 'W');
    assert("INFO"@.map_values(up)[0] == 'I');
    assert("DEBUG"@.map_values(up)[0] == 'D');
    assert("TRACE"@.map_values(up)[0] == 'T');
}

} // verus!
