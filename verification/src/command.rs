//! The command processor and input-event handling: one submitted line (or
//! one navigation key) becomes exactly one state change and a list of
//! effects for the surroundings to perform.

use vstd::prelude::*;
use crate::omap;
use crate::omap::key_idx;
use crate::text::str_eqs;
use crate::text::ci_starts;
use crate::text::ci_has_prefix;
use crate::text::skip_ws_spec;
use crate::text::chan_end_spec;
use crate::text::all_digits;
use crate::text::dec_val;
use crate::text::parse_usize;
use crate::text::is_ws;
use crate::text::idx_of_first;
use crate::text::substr;
use crate::text::skip_ws;
use crate::text::token_end;
use crate::text::find_sub;
use crate::text::find_char;
use crate::state::App;
use crate::state::ChannelData;
use crate::state::wf;
use crate::state::wf_server;
use crate::state::wf_channel;
use crate::state::Popup;
use crate::wrap::wrapped_count;
use crate::wrap::wrap_line_count;
use crate::dispatch::Effect;
use crate::select::PartOutcome;
use crate::escape::decode_escapes;
use crate::escape::decode_spec;

verus! {

/// A navigation key, as the input collaborator reports it.
#[derive(Debug, PartialEq, Eq, Structural)]
pub enum Key {
    F(u8),
    Up,
    Down,
    PageUp,
    PageDown,
    Other,
}

/// One input event the session reacts to. Character editing of the prompt
/// happens outside the library; the prompt arrives here only when sent.
pub enum AppEvent {
    InputSend,
    Resize(u16, u16),
    Popup(Key),
    PromptHistory(Key),
    ListHistory(Key),
    SplitSwap,
    InputEscape,
}

/// The `/connect` argument grammar: the exact text `/connect`, whitespace,
/// a host without whitespace or `:`, and optionally `:` and a decimal
/// port, with nothing after. The result is the server name and the dial
/// address (the port defaults to 6667).
pub open spec fn connect_parse(s: Seq<char>) -> Option<(Seq<char>, Seq<char>)> {
    if s.len() < 8 || s.subrange(0, 8) != "/connect"@ {
        Option::None
    } else {
        let w = skip_ws_spec(s, 8);
        if w == 8 || w >= s.len() {
            Option::None
        } else {
            let e = chan_end_spec(s, w);
            if e == w {
                Option::None
            } else {
                let host = s.subrange(w, e);
                if e == s.len() {
                    Option::Some((host, host + ":6667"@))
                } else if s[e] == ':' && e + 1 < s.len() && all_digits(s.skip(e + 1)) {
                    Option::Some((host, host + ":"@ + s.skip(e + 1)))
                } else {
                    Option::None
                }
            }
        }
    }
}

/// Parses a `/connect` line, as `connect_parse` describes; a line that does
/// not fit the grammar yields two empty strings, handed on unchanged.
pub fn parse_connect(line: &str) -> (r: (String, String))
    ensures
        match connect_parse(line@) {
            Option::Some(p) => r.0@ == p.0 && r.1@ == p.1,
            Option::None => r.0@ == Seq::<char>::empty() && r.1@ == Seq::<char>::empty(),
        },
{
    let len = line.unicode_len();
    proof {
        reveal_strlit("/connect");
    }
    if len < 8 {
        return (String::new(), String::new());
    }
    let head = line.substring_char(0, 8);
    if !str_eqs(head, "/connect") {
        proof {
            assert(line@.subrange(0, 8) != "/connect"@);
        }
        return (String::new(), String::new());
    }
    let w = skip_ws(line, 8, len);
    if w == 8 || w >= len {
        return (String::new(), String::new());
    }
    let mut ee: usize = w;
    while ee < len && !chan_end_probe(line, ee)
        invariant
            w <= ee <= len,
            len == line@.len(),
            chan_end_spec(line@, w as int) == chan_end_spec(line@, ee as int),
        decreases len - ee,
    {
        ee = ee + 1;
    }
    proof {
        crate::text::lemma_token_end_bounds(line@, w as int);
        assert(w <= chan_end_spec(line@, w as int));
    }
    if ee == w {
        return (String::new(), String::new());
    }
    let host = substr(line, w, ee);
    if ee == len {
        let addr = host.clone().concat(":6667");
        return (host, addr);
    }
    let c = line.get_char(ee);
    if c == ':' && ee + 1 < len {
        let digits = line.substring_char(ee + 1, len);
        proof {
            assert(digits@ =~= line@.skip(ee as int + 1));
        }
        if digits_only(digits) {
            let addr = host.clone().concat(":").concat(digits);
            return (host, addr);
        }
        return (String::new(), String::new());
    }
    (String::new(), String::new())
}

/// Probe for the end of a host token.
fn chan_end_probe(s: &str, i: usize) -> (r: bool)
    requires
        i < s@.len(),
    ensures
        r == (is_ws(s@[i as int]) || s@[i as int] == ':'),
        r == (chan_end_spec(s@, i as int) == i),
    {
    let c = s.get_char(i);
    let r = crate::text::ws_char(c) || c == ':';
    proof {
        if !r {
            crate::text::lemma_chan_end_bounds(s@, i as int + 1);
        }
    }
    r
}

/// All characters are decimal digits (without a size bound).
fn digits_only(s: &str) -> (r: bool)
    ensures
        r == (s@.len() > 0 && all_digits(s@)),
{
    let len = s.unicode_len();
    if len == 0 {
        return false;
    }
    let mut i: usize = 0;
    while i < len
        invariant
            0 <= i <= len,
            len == s@.len(),
            forall|j: int| 0 <= j < i ==> 48 <= (#[trigger] s@[j]) as u32 <= 57,
        decreases len - i,
    {
        let u = s.get_char(i) as u32;
        if !(48 <= u && u <= 57) {
            return false;
        }
        i = i + 1;
    }
    true
}

/// Subtraction clamped at zero.
pub open spec fn sat_sub(a: int, b: int) -> int {
    if a >= b {
        a - b
    } else {
        0
    }
}

/// A count clamped at the machine limit.
pub open spec fn sat_cap(x: int) -> int {
    if x > usize::MAX {
        usize::MAX as int
    } else {
        x
    }
}

/// Total display height of a history at the given width.
pub open spec fn total_wrapped(h: Seq<(String, String)>, width: int) -> int
    decreases h.len(),
{
    if h.len() == 0 {
        0
    } else {
        total_wrapped(h.take(h.len() - 1), width) + wrapped_count(h[h.len() - 1].1@, width)
    }
}

proof fn lemma_total_wrapped_nonneg(h: Seq<(String, String)>, width: int)
    ensures
        total_wrapped(h, width) >= 0,
    decreases h.len(),
{
    if h.len() > 0 {
        lemma_total_wrapped_nonneg(h.take(h.len() - 1), width);
    }
}

/// Sums the display height of a whole history, clamped at the machine
/// limit.
fn total_wrap_lines(h: &Vec<(String, String)>, width: usize) -> (r: usize)
    ensures
        r == sat_cap(total_wrapped(h@, width as int)),
{
    let len = h.len();
    let mut acc: usize = 0;
    let mut i: usize = 0;
    proof {
        assert(h@.take(0) =~= Seq::<(String, String)>::empty());
    }
    while i < len
        invariant
            0 <= i <= len,
            len == h@.len(),
            acc == sat_cap(total_wrapped(h@.take(i as int), width as int)),
        decreases len - i,
    {
        let n = wrap_line_count(h[i].1.as_str(), width);
        proof {
            assert(h@.take(i as int + 1).take(i as int) =~= h@.take(i as int));
            assert(h@.take(i as int + 1)[i as int] == h@[i as int]);
            lemma_total_wrapped_nonneg(h@.take(i as int), width as int);
        }
        acc = acc.saturating_add(n);
        i = i + 1;
    }
    proof {
        assert(h@.take(len as int) =~= h@);
    }
    acc
}

/// One channel's scroll position moved; everything else unchanged.
pub open spec fn chans_pos_rel(
    c0: Seq<(String, ChannelData)>,
    c1: Seq<(String, ChannelData)>,
    cid: Seq<char>,
    newpos: int,
) -> bool {
    match key_idx(c0, cid) {
        Option::None => c1 == c0,
        Option::Some(ci) => {
            &&& c1.len() == c0.len()
            &&& forall|j: int| 0 <= j < c0.len() && j != ci ==> #[trigger] c1[j] == c0[j]
            &&& c1[ci].0 == c0[ci].0
            &&& c1[ci].1.chat_list == c0[ci].1.chat_list
            &&& c1[ci].1.user_list == c0[ci].1.user_list
            &&& c1[ci].1.chat_pos == newpos
            &&& c1[ci].1.notification == c0[ci].1.notification
        },
    }
}

/// Scroll moved through the server map; unknown names change nothing.
pub open spec fn srv_pos_rel(
    s0: Seq<(String, crate::state::ServerData)>,
    s1: Seq<(String, crate::state::ServerData)>,
    sid: Seq<char>,
    cid: Seq<char>,
    newpos: int,
) -> bool {
    match key_idx(s0, sid) {
        Option::None => s1 == s0,
        Option::Some(si) => {
            &&& s1.len() == s0.len()
            &&& forall|j: int| 0 <= j < s0.len() && j != si ==> #[trigger] s1[j] == s0[j]
            &&& s1[si].0 == s0[si].0
            &&& s1[si].1.nick == s0[si].1.nick
            &&& chans_pos_rel(s0[si].1.channels@, s1[si].1.channels@, cid, newpos)
        },
    }
}

/// The scroll position the active channel reaches on one page-up press:
/// one step back in time, unless already at the oldest retained content.
pub open spec fn page_up_pos(a: App, c: ChannelData) -> int {
    let total = sat_cap(total_wrapped(c.chat_list@, crate::state::wrap_width_spec(a)));
    let lim = sat_sub(total, sat_sub(a.h as int, 6));
    if c.chat_pos == lim {
        c.chat_pos as int
    } else {
        sat_cap(c.chat_pos + 1)
    }
}

/// One page-up press: the open popup scrolls back, else the active
/// channel steps one line towards older content.
pub open spec fn page_up_rel(a: App, b: App) -> bool {
    &&& (match a.popup {
                Popup::List => b == (App {
                    list_pos: b.list_pos,
                    ..a
                }) && b.list_pos == sat_sub(a.list_pos as int, 1),
                Popup::User => b == (App {
                    menu_pos: b.menu_pos,
                    ..a
                }) && b.menu_pos == sat_sub(a.menu_pos as int, 1),
                _ => {
                    &&& crate::state::ui_eq(a, b)
                    &&& match key_idx(a.server_list@, a.active_server@) {
                        Option::None => b.server_list@ == a.server_list@,
                        Option::Some(si) => {
                            match key_idx(
                                a.server_list@[si].1.channels@,
                                a.active_channel@,
                            ) {
                                Option::None => b.server_list@ == a.server_list@,
                                Option::Some(ci) => srv_pos_rel(
                                    a.server_list@,
                                    b.server_list@,
                                    a.active_server@,
                                    a.active_channel@,
                                    page_up_pos(
                                        a,
                                        a.server_list@[si].1.channels@[ci].1,
                                    ),
                                ),
                            }
                        },
                    }
                },
            })
}

/// One page-down press: the open popup scrolls forward, stopping at its
/// last page, else the active channel steps towards the newest content.
pub open spec fn page_down_rel(a: App, b: App) -> bool {
    &&& (match a.popup {
                Popup::List => b == (App {
                    list_pos: b.list_pos,
                    ..a
                }) && b.list_pos == ({
                    let lim = sat_sub(
                        a.list_response@.len() as int,
                        sat_sub(a.h as int * 70 / 100, 1),
                    );
                    if a.list_pos >= lim {
                        a.list_pos as int
                    } else {
                        sat_cap(a.list_pos + 1)
                    }
                }),
                Popup::User => b == (App {
                    menu_pos: b.menu_pos,
                    ..a
                }) && b.menu_pos == ({
                    match key_idx(a.server_list@, a.active_server@) {
                        Option::None => a.menu_pos as int,
                        Option::Some(si) => {
                            match key_idx(
                                a.server_list@[si].1.channels@,
                                a.active_channel@,
                            ) {
                                Option::None => a.menu_pos as int,
                                Option::Some(ci) => {
                                    let lim = sat_sub(
                                        a.server_list@[si].1.channels@[ci].1.user_list@.len() as int,
                                        sat_sub(a.h as int * 70 / 100, 1),
                                    );
                                    if a.menu_pos >= lim {
                                        a.menu_pos as int
                                    } else {
                                        sat_cap(a.menu_pos + 1)
                                    }
                                },
                            }
                        },
                    }
                }),
                _ => {
                    &&& crate::state::ui_eq(a, b)
                    &&& match key_idx(a.server_list@, a.active_server@) {
                        Option::None => b.server_list@ == a.server_list@,
                        Option::Some(si) => {
                            match key_idx(
                                a.server_list@[si].1.channels@,
                                a.active_channel@,
                            ) {
                                Option::None => b.server_list@ == a.server_list@,
                                Option::Some(ci) => srv_pos_rel(
                                    a.server_list@,
                                    b.server_list@,
                                    a.active_server@,
                                    a.active_channel@,
                                    sat_sub(
                                        a.server_list@[si].1.channels@[ci].1.chat_pos as int,
                                        1,
                                    ),
                                ),
                            }
                        },
                    }
                },
            })
}

/// One step back through the prompt history.
pub open spec fn hist_up_rel(a: App, b: App) -> bool {
    &&& (if a.prompt_pos < 1 {
                if a.prompt_list@.len() < 1 {
                    b == a
                } else {
                    b == (App { prompt: b.prompt, ..a }) && b.prompt == a.prompt_list@[0]
                }
            } else {
                &&& b == (App {
                    prompt: b.prompt,
                    prompt_pos: b.prompt_pos,
                    ..a
                })
                &&& b.prompt == a.prompt_list@[a.prompt_pos - 1]
                &&& b.prompt_pos == a.prompt_pos - 1
            })
}

/// One step forward through the prompt history; past the newest line
/// the prompt clears.
pub open spec fn hist_down_rel(a: App, b: App) -> bool {
    &&& (if a.prompt_pos == a.prompt_list@.len() {
                b == a
            } else if a.prompt_list@.len() == a.prompt_pos + 1 {
                &&& b == (App {
                    prompt: b.prompt,
                    prompt_pos: b.prompt_pos,
                    ..a
                })
                &&& b.prompt@ == Seq::<char>::empty()
                &&& b.prompt_pos == a.prompt_pos + 1
            } else {
                &&& b == (App {
                    prompt: b.prompt,
                    prompt_pos: b.prompt_pos,
                    ..a
                })
                &&& b.prompt == a.prompt_list@[a.prompt_pos + 1]
                &&& b.prompt_pos == a.prompt_pos + 1
            })
}

/// A function key toggles its popup and tab selection.
pub open spec fn popup_rel(a: App, b: App, k: Key) -> bool {
    &&& (b == (App {
                popup: b.popup,
                active_tab: b.active_tab,
                menu_pos: b.menu_pos,
                ..a
            }))
    &&& (match k {
                Key::F(1) => if a.popup == Popup::Help {
                    b.popup == Popup::Closed && b.active_tab == usize::MAX
                        && b.menu_pos == a.menu_pos
                } else {
                    b.popup == Popup::Help && b.active_tab == 0 && b.menu_pos == a.menu_pos
                },
                Key::F(2) => if a.popup == Popup::User {
                    b.popup == Popup::Closed && b.active_tab == usize::MAX
                        && b.menu_pos == a.menu_pos
                } else {
                    b.popup == Popup::User && b.active_tab == 1 && b.menu_pos == 0
                },
                Key::F(3) => if a.popup == Popup::Channel {
                    b.popup == Popup::Closed && b.active_tab == usize::MAX
                        && b.menu_pos == a.menu_pos
                } else {
                    b.popup == Popup::Channel && b.active_tab == 2 && b.menu_pos == a.menu_pos
                },
                _ => b == a,
            })
}

impl App {
    /// Moves the value at `(active_server, active_channel)` by one page-up
    /// press; with a list or user popup open, that popup scrolls instead.
    pub fn page_up(&mut self)
        requires
            wf(*old(self)),
        ensures
            wf(*final(self)),
            page_up_rel(*old(self), *final(self)),
    {
        if matches!(self.popup, Popup::List) {
            self.list_pos = self.list_pos.saturating_sub(1);
            return ;
        }
        if matches!(self.popup, Popup::User) {
            self.menu_pos = self.menu_pos.saturating_sub(1);
            return ;
        }
        let si = match self.find_server(self.active_server.clone().as_str()) {
            Option::Some(si) => si,
            Option::None => {
                return ;
            },
        };
        proof {
            omap::lemma_key_idx(self.server_list@, self.active_server@);
        }
        let ci = match omap::find_idx(
            &self.server_list[si].1.channels,
            self.active_channel.clone().as_str(),
        ) {
            Option::Some(ci) => ci,
            Option::None => {
                return ;
            },
        };
        proof {
            omap::lemma_key_idx(self.server_list@[si as int].1.channels@, self.active_channel@);
        }
        let width = self.wrap_width();
        let hh = (self.h as usize).saturating_sub(6);
        let ghost old_app = *self;
        let srv = omap::val_mut(&mut self.server_list, si);
        let ghost old_srv = *srv;
        let ch = omap::val_mut(&mut srv.channels, ci);
        let total = total_wrap_lines(&ch.chat_list, width);
        let lim = total.saturating_sub(hh);
        if ch.chat_pos == lim {
            // parked at the oldest retained content
        } else {
            ch.chat_pos = ch.chat_pos.saturating_add(1);
        }
        proof {
            crate::state::lemma_wf_server_after_update(
                old_srv.channels@,
                srv.channels@,
                ci as int,
            );
            assert(wf_server(*srv));
            crate::state::lemma_wf_after_update(
                old_app.server_list@,
                self.server_list@,
                si as int,
            );
        }
    }

    /// Moves the active channel one page-down press towards the newest
    /// content; with a list or user popup open, that popup scrolls instead,
    /// stopping at its last page.
    pub fn page_down(&mut self)
        requires
            wf(*old(self)),
        ensures
            wf(*final(self)),
            page_down_rel(*old(self), *final(self)),
    {
        if matches!(self.popup, Popup::List) {
            let lim = self.list_response.len().saturating_sub(
                ((self.h as usize) * 70 / 100).saturating_sub(1),
            );
            if self.list_pos >= lim {
                // the last page is already shown
            } else {
                self.list_pos = self.list_pos.saturating_add(1);
            }
            return ;
        }
        if matches!(self.popup, Popup::User) {
            let ul = match self.find_server(self.active_server.clone().as_str()) {
                Option::Some(si) => {
                    proof {
                        omap::lemma_key_idx(self.server_list@, self.active_server@);
                    }
                    match omap::find_idx(
                        &self.server_list[si].1.channels,
                        self.active_channel.clone().as_str(),
                    ) {
                        Option::Some(ci) => {
                            proof {
                                omap::lemma_key_idx(
                                    self.server_list@[si as int].1.channels@,
                                    self.active_channel@,
                                );
                            }
                            Option::Some(self.server_list[si].1.channels[ci].1.user_list.len())
                        },
                        Option::None => Option::None,
                    }
                },
                Option::None => Option::None,
            };
            match ul {
                Option::Some(n) => {
                    let lim = n.saturating_sub(((self.h as usize) * 70 / 100).saturating_sub(1));
                    if self.menu_pos >= lim {
                        // the last page is already shown
                    } else {
                        self.menu_pos = self.menu_pos.saturating_add(1);
                    }
                },
                Option::None => {},
            }
            return ;
        }
        let si = match self.find_server(self.active_server.clone().as_str()) {
            Option::Some(si) => si,
            Option::None => {
                return ;
            },
        };
        proof {
            omap::lemma_key_idx(self.server_list@, self.active_server@);
        }
        let ci = match omap::find_idx(
            &self.server_list[si].1.channels,
            self.active_channel.clone().as_str(),
        ) {
            Option::Some(ci) => ci,
            Option::None => {
                return ;
            },
        };
        proof {
            omap::lemma_key_idx(self.server_list@[si as int].1.channels@, self.active_channel@);
        }
        let ghost old_app = *self;
        let srv = omap::val_mut(&mut self.server_list, si);
        let ghost old_srv = *srv;
        let ch = omap::val_mut(&mut srv.channels, ci);
        ch.chat_pos = ch.chat_pos.saturating_sub(1);
        proof {
            crate::state::lemma_wf_server_after_update(
                old_srv.channels@,
                srv.channels@,
                ci as int,
            );
            assert(wf_server(*srv));
            crate::state::lemma_wf_after_update(
                old_app.server_list@,
                self.server_list@,
                si as int,
            );
        }
    }

    /// Recalls the previous prompt line, stepping back through the history.
    pub fn history_up(&mut self)
        requires
            wf(*old(self)),
        ensures
            wf(*final(self)),
            hist_up_rel(*old(self), *final(self)),
    {
        if self.prompt_pos < 1 && self.prompt_list.len() < 1 {
            // nothing recorded yet
        } else if self.prompt_pos < 1 && self.prompt_list.len() >= 1 {
            self.prompt = self.prompt_list[0].clone();
        } else {
            self.prompt = self.prompt_list[self.prompt_pos - 1].clone();
            self.prompt_pos = self.prompt_pos - 1;
        }
    }

    /// Steps forward through the prompt history; past the newest recorded
    /// line the prompt clears.
    pub fn history_down(&mut self)
        requires
            wf(*old(self)),
        ensures
            wf(*final(self)),
            hist_down_rel(*old(self), *final(self)),
    {
        if self.prompt_pos == self.prompt_list.len() {
            // already past the newest line
        } else if self.prompt_list.len() == self.prompt_pos + 1 {
            self.prompt = String::new();
            self.prompt_pos = self.prompt_pos + 1;
        } else {
            self.prompt = self.prompt_list[self.prompt_pos + 1].clone();
            self.prompt_pos = self.prompt_pos + 1;
        }
    }

    /// Toggles the popup selected by a function key.
    pub fn popup_key(&mut self, k: Key)
        requires
            wf(*old(self)),
        ensures
            wf(*final(self)),
            popup_rel(*old(self), *final(self), k),
    {
        match k {
            Key::F(1) => {
                if self.popup == Popup::Help {
                    self.popup = Popup::Closed;
                    self.active_tab = usize::MAX;
                } else {
                    self.popup = Popup::Help;
                    self.active_tab = 0;
                }
            },
            Key::F(2) => {
                if self.popup == Popup::User {
                    self.popup = Popup::Closed;
                    self.active_tab = usize::MAX;
                } else {
                    self.popup = Popup::User;
                    self.active_tab = 1;
                    self.menu_pos = 0;
                }
            },
            Key::F(3) => {
                if self.popup == Popup::Channel {
                    self.popup = Popup::Closed;
                    self.active_tab = usize::MAX;
                } else {
                    self.popup = Popup::Channel;
                    self.active_tab = 2;
                }
            },
            _ => {},
        }
    }
}

/// The channel a `/part` line names: the text after the command word.
pub open spec fn part_chan(l: Seq<char>) -> Seq<char> {
    if l.len() >= 6 {
        l.skip(6)
    } else {
        Seq::<char>::empty()
    }
}

/// An error line recorded in the System server's Status channel.
pub open spec fn status_err_rel(a: App, b: App, msg: Seq<char>, label: Seq<char>) -> bool {
    exists|sv: String, cv: String, nv: String, dv: String|
        #[trigger] crate::state::app_append_rel(a, b, sv, cv, nv, dv) && sv@ == "System"@ && cv@
            == "Status"@ && nv@ == label && dv@ == msg
}

/// How `/split l-r` reads its two indices from the line.
pub open spec fn split_cmd_rel(a: App, b: App, l: Seq<char>) -> bool {
    if l.len() < 7 {
        b == a
    } else {
        let lefts = match idx_of_first(l, '-') {
            Option::Some(p) => if 7 <= p {
                l.subrange(7, p)
            } else {
                Seq::<char>::empty()
            },
            Option::None => Seq::<char>::empty(),
        };
        let rights = match idx_of_first(l, '-') {
            Option::Some(p) => l.skip(p + 1),
            Option::None => l.skip(1),
        };
        if lefts.len() > 0 && all_digits(lefts) && dec_val(lefts) <= usize::MAX && rights.len() > 0
            && all_digits(rights) && dec_val(rights) <= usize::MAX {
            crate::select::split_rel(a, b, dec_val(lefts), dec_val(rights))
        } else {
            b == a
        }
    }
}

/// What one submitted command line does: which effects leave, and how the
/// state moves, by the first matching command form.
pub open spec fn command_rel(a: App, b: App, line: String, fx: Seq<Effect>) -> bool {
    let l = line@;
    if ci_has_prefix(l, "/TWITCH_CONNECT"@) {
        fx =~= seq![Effect::TwitchConnect] && b == a
    } else if ci_has_prefix(l, "/CONNECT"@) {
        &&& fx.len() == 1
        &&& (fx[0] matches Effect::Connect { server, addr } && (match connect_parse(l) {
            Option::Some(p) => server@ == p.0 && addr@ == p.1,
            Option::None => server@ == Seq::<char>::empty() && addr@ == Seq::<char>::empty(),
        }))
        &&& b == a
    } else if ci_has_prefix(l, "/QUIT"@) {
        fx =~= seq![Effect::DisconnectAll] && b == (App { exit: true, ..a })
    } else if l.len() == 5 && ci_has_prefix(l, "/LOAD"@) {
        fx =~= seq![Effect::LoadAutojoin] && b == a
    } else if ci_has_prefix(l, "/DISCONNECT "@) {
        exists|r: bool|
            #[trigger] crate::select::disconnect_rel(a, b, l.skip(12), r) && (if r {
                fx.len() == 1 && (fx[0] matches Effect::Disconnect { server } && server@ == l.skip(
                    12,
                ))
            } else {
                fx.len() == 0
            })
    } else if ci_has_prefix(l, "/JOIN #"@) {
        if a.active_server@ != "System"@ {
            fx.len() == 1 && (fx[0] matches Effect::Send { server, line: out } && server
                == a.active_server && out@ == l.skip(1)) && b == a
        } else {
            fx.len() == 0 && status_err_rel(a, b, "Error Not Connected to a server"@, "ERROR"@)
        }
    } else if ci_has_prefix(l, "/PART"@) {
        &&& (if idx_of_first(l, '#') is Some {
            fx.len() == 1 && (fx[0] matches Effect::Send { server, line: out } && server
                == a.active_server && out@ == l.skip(1))
        } else {
            fx.len() == 0
        })
        &&& exists|m: App, r: crate::select::PartOutcome|
            #[trigger] crate::select::part_rel(a, m, part_chan(l), r) && (if r
                == crate::select::PartOutcome::NotJoined {
                exists|nv: String, dv: String|
                    #[trigger] crate::state::app_append_rel(
                        m,
                        b,
                        a.active_server,
                        a.active_channel,
                        nv,
                        dv,
                    ) && nv@ == "Error"@ && dv@ == "Channel Not Joined"@
            } else {
                b == m
            })
    } else if ci_has_prefix(l, "/NICK"@) {
        if a.active_server@ != "System"@ {
            fx.len() == 1 && (fx[0] matches Effect::Send { server, line: out } && server
                == a.active_server && out@ == l.skip(1)) && b == a
        } else {
            &&& fx.len() == 0
            &&& exists|m: App, sv: String, cv: String, nv: String, dv: String|
                #[trigger] crate::state::app_append_rel(m, b, sv, cv, nv, dv) && m == (App {
                    active_nick: m.active_nick,
                    ..a
                }) && m.active_nick@ == (if l.len() >= 6 {
                    l.skip(6)
                } else {
                    Seq::<char>::empty()
                }) && sv@ == "System"@ && cv@ == "Status"@ && nv@ == "NICK"@ && dv@
                == "You're now known as "@ + m.active_nick@
        }
    } else if ci_has_prefix(l, "/MSG"@) {
        if a.active_server@ != "System"@ {
            fx.len() == 1 && (fx[0] matches Effect::Send { server, line: out } && server
                == a.active_server && (match crate::text::first_match(l, crate::text::second_token(l)) {
                Option::Some(p) => out@ == "PRIVMSG "@ + crate::text::second_token(l) + " :"@
                    + decode_spec(l.skip(p + crate::text::second_token(l).len())),
                Option::None => out@ == "PRIVMSG "@ + crate::text::second_token(l) + " :"@
                    + decode_spec(l),
            }))
            && (exists|m: App, dv: String, nk: String|
                #![trigger crate::state::app_append_rel(a, m, a.active_server, a.active_channel, a.active_nick, dv), crate::state::app_append_rel(m, b, a.active_server, nk, a.active_nick, dv)]
                crate::state::app_append_rel(
                    a,
                    m,
                    a.active_server,
                    a.active_channel,
                    a.active_nick,
                    dv,
                ) && crate::state::app_append_rel(m, b, a.active_server, nk, a.active_nick, dv)
                    && nk@ == crate::text::second_token(l) && dv@ == (
                match crate::text::first_match(l, crate::text::second_token(l)) {
                    Option::Some(p) => decode_spec(
                        l.skip(p + crate::text::second_token(l).len()),
                    ),
                    Option::None => decode_spec(l),
                }))
        } else {
            fx.len() == 0 && status_err_rel(a, b, "Error Not Connected, or wrong server"@, "Error"@)
        }
    } else if ci_has_prefix(l, "/SWAP"@) {
        fx.len() == 0 && (if l.len() >= 6 && l.skip(6).len() > 0 && all_digits(l.skip(6))
            && dec_val(l.skip(6)) <= usize::MAX {
            crate::select::swap_rel(a, b, dec_val(l.skip(6)))
        } else {
            b == a
        })
    } else if ci_has_prefix(l, "/SPLIT"@) {
        fx.len() == 0 && split_cmd_rel(a, b, l)
    } else if l.len() > 0 && l[0] == '/' {
        fx.len() == 1 && (fx[0] matches Effect::Send { server, line: out } && server
            == a.active_server && out@ == l.skip(1)) && b == a
    } else {
        if a.active_server@ != "System"@ {
            &&& fx.len() == 1
            &&& (fx[0] matches Effect::Send { server, line: out } && server == a.active_server
                && out@ == "PRIVMSG "@ + a.active_channel@ + " :"@ + decode_spec(l))
            &&& exists|dv: String|
                #[trigger] crate::state::app_append_rel(
                    a,
                    b,
                    a.active_server,
                    a.active_channel,
                    a.active_nick,
                    dv,
                ) && dv@ == decode_spec(l)
        } else {
            fx.len() == 0 && status_err_rel(
                a,
                b,
                "Error currently not connected to a server or in a channel"@,
                "Error"@,
            )
        }
    }
}

impl App {
    /// Turns one submitted line into its local state change and outbound
    /// effects, as `command_rel` describes. A chat line on a real server
    /// is escape-decoded, sent as a message to the active channel and
    /// echoed locally; on the System server it only reports an error.
    pub fn handle_command(&mut self, line: &String) -> (fx: Vec<Effect>)
        requires
            wf(*old(self)),
            line@.len() > 0,
        ensures
            wf(*final(self)),
            command_rel(*old(self), *final(self), *line, fx@),
            final(self).prompt == old(self).prompt,
            final(self).prompt_list == old(self).prompt_list,
            final(self).prompt_pos == old(self).prompt_pos,
    {
        let mut fx: Vec<Effect> = Vec::new();
        let len = line.as_str().unicode_len();
        if ci_starts(line.as_str(), "/TWITCH_CONNECT") {
            fx.push(Effect::TwitchConnect);
            proof {
                assert(fx@ =~= seq![Effect::TwitchConnect]);
            }
        } else if ci_starts(line.as_str(), "/CONNECT") {
            let (server, addr) = parse_connect(line.as_str());
            fx.push(Effect::Connect { server, addr });
        } else if ci_starts(line.as_str(), "/QUIT") {
            self.quit();
            fx.push(Effect::DisconnectAll);
            proof {
                assert(fx@ =~= seq![Effect::DisconnectAll]);
            }
        } else if len == 5 && ci_starts(line.as_str(), "/LOAD") {
            fx.push(Effect::LoadAutojoin);
            proof {
                assert(fx@ =~= seq![Effect::LoadAutojoin]);
            }
        } else if ci_starts(line.as_str(), "/DISCONNECT ") {
            proof {
                reveal_strlit("/DISCONNECT ");
            }
            let sid = substr(line.as_str(), 12, len);
            proof {
                assert(sid@ =~= line@.skip(12));
            }
            let existed = self.disconnect_local(sid.as_str());
            if existed {
                fx.push(Effect::Disconnect { server: sid });
            }
        } else if ci_starts(line.as_str(), "/JOIN #") {
            if !str_eqs(self.active_server.as_str(), "System") {
                let out = substr(line.as_str(), 1, len);
                proof {
                    reveal_strlit("/JOIN #");
                    assert(out@ =~= line@.skip(1));
                }
                fx.push(Effect::Send { server: self.active_server.clone(), line: out });
            } else {
                let sv = String::from_str("System");
                let cv = String::from_str("Status");
                let nv = String::from_str("ERROR");
                let dv = String::from_str("Error Not Connected to a server");
                self.chat_bounds(dv.clone(), sv.clone(), cv.clone(), nv.clone());
                proof {
                    assert(crate::state::app_append_rel(
                        *old(self),
                        *self,
                        sv,
                        cv,
                        nv,
                        dv,
                    ));
                }
            }
        } else if ci_starts(line.as_str(), "/PART") {
            match find_char(line.as_str(), '#') {
                Option::Some(_) => {
                    let out = substr(line.as_str(), 1, len);
                    proof {
                        reveal_strlit("/PART");
                        assert(out@ =~= line@.skip(1));
                    }
                    fx.push(Effect::Send { server: self.active_server.clone(), line: out });
                },
                Option::None => {},
            }
            let chan = if len >= 6 {
                let c = substr(line.as_str(), 6, len);
                proof {
                    assert(c@ =~= line@.skip(6));
                }
                c
            } else {
                String::new()
            };
            let outcome = self.part_local(chan.as_str());
            let ghost m = *self;
            proof {
                assert(crate::select::part_rel(*old(self), m, part_chan(line@), outcome));
            }
            if outcome == PartOutcome::NotJoined {
                let sv = self.active_server.clone();
                let cv = self.active_channel.clone();
                let nvs = String::from_str("Error");
                let dvs = String::from_str("Channel Not Joined");
                self.chat_bounds(dvs.clone(), sv, cv, nvs.clone());
                proof {
                    assert(crate::state::app_append_rel(
                        m,
                        *self,
                        old(self).active_server,
                        old(self).active_channel,
                        nvs,
                        dvs,
                    ));
                }
            }
        } else if ci_starts(line.as_str(), "/NICK") {
            if !str_eqs(self.active_server.as_str(), "System") {
                let out = substr(line.as_str(), 1, len);
                proof {
                    reveal_strlit("/NICK");
                    assert(out@ =~= line@.skip(1));
                }
                fx.push(Effect::Send { server: self.active_server.clone(), line: out });
            } else {
                self.active_nick = if len >= 6 {
                    let n = substr(line.as_str(), 6, len);
                    proof {
                        assert(n@ =~= line@.skip(6));
                    }
                    n
                } else {
                    String::new()
                };
                let ghost m = *self;
                proof {
                    assert(m == (App { active_nick: m.active_nick, ..*old(self) }));
                }
                let notice = String::from_str("You're now known as ").concat(
                    self.active_nick.as_str(),
                );
                let sv = String::from_str("System");
                let cv = String::from_str("Status");
                let nv = String::from_str("NICK");
                self.chat_bounds(notice.clone(), sv.clone(), cv.clone(), nv.clone());
                proof {
                    assert(crate::state::app_append_rel(m, *self, sv, cv, nv, notice));
                }
            }
        } else if ci_starts(line.as_str(), "/MSG") {
            if !str_eqs(self.active_server.as_str(), "System") {
                let a1 = skip_ws(line.as_str(), 0, len);
                let b1 = token_end(line.as_str(), a1, len);
                let c1 = skip_ws(line.as_str(), b1, len);
                let d1 = token_end(line.as_str(), c1, len);
                let nick = substr(line.as_str(), c1, d1);
                proof {
                    assert(nick@ == crate::text::second_token(line@));
                }
                let nlen = nick.as_str().unicode_len();
                let msg_raw = match find_sub(line.as_str(), nick.as_str()) {
                    Option::Some(p) => {
                        let t = substr(line.as_str(), p + nlen, len);
                        proof {
                            assert(t@ =~= line@.skip(p + nlen));
                        }
                        t
                    },
                    Option::None => {
                        let t = substr(line.as_str(), 0, len);
                        proof {
                            assert(t@ =~= line@);
                        }
                        t
                    },
                };
                let msg = decode_escapes(msg_raw.as_str());
                let ghost gmsg = msg;
                let ghost gnick = nick;
                let out = String::from_str("PRIVMSG ").concat(nick.as_str()).concat(" :").concat(
                    msg.as_str(),
                );
                fx.push(Effect::Send { server: self.active_server.clone(), line: out });
                let sv = self.active_server.clone();
                let cv = self.active_channel.clone();
                let nv = self.active_nick.clone();
                self.chat_bounds(msg.clone(), sv.clone(), cv, nv.clone());
                let ghost m = *self;
                self.chat_bounds(msg, sv, nick, nv);
                proof {
                    assert(crate::state::app_append_rel(
                        *old(self),
                        m,
                        old(self).active_server,
                        old(self).active_channel,
                        old(self).active_nick,
                        gmsg,
                    ));
                    assert(crate::state::app_append_rel(
                        m,
                        *self,
                        old(self).active_server,
                        gnick,
                        old(self).active_nick,
                        gmsg,
                    ));
                }
            } else {
                let sv = String::from_str("System");
                let cv = String::from_str("Status");
                let nv = String::from_str("Error");
                let dv = String::from_str("Error Not Connected, or wrong server");
                self.chat_bounds(dv.clone(), sv.clone(), cv.clone(), nv.clone());
                proof {
                    assert(crate::state::app_append_rel(
                        *old(self),
                        *self,
                        sv,
                        cv,
                        nv,
                        dv,
                    ));
                }
            }
        } else if ci_starts(line.as_str(), "/SWAP") {
            if len >= 6 {
                let digits = line.as_str().substring_char(6, len);
                proof {
                    assert(digits@ =~= line@.skip(6));
                }
                match parse_usize(digits) {
                    Option::Some(n) => {
                        self.swap_to(n);
                    },
                    Option::None => {},
                }
            }
        } else if ci_starts(line.as_str(), "/SPLIT") {
            if len >= 7 {
                proof {
                    crate::text::lemma_idx_of_first(line@, '-');
                }
                let (lefts, rights) = match find_char(line.as_str(), '-') {
                    Option::Some(p) => {
                        if 7 <= p {
                            (substr(line.as_str(), 7, p), substr(line.as_str(), p + 1, len))
                        } else {
                            (String::new(), substr(line.as_str(), p + 1, len))
                        }
                    },
                    Option::None => (String::new(), substr(line.as_str(), 1, len)),
                };
                proof {
                    crate::text::lemma_idx_of_first(line@, '-');
                }
                match (parse_usize(lefts.as_str()), parse_usize(rights.as_str())) {
                    (Option::Some(lv), Option::Some(rv)) => {
                        self.split_to(lv, rv);
                    },
                    _ => {},
                }
            }
        } else if line.as_str().get_char(0) == '/' {
            let out = substr(line.as_str(), 1, len);
            proof {
                assert(out@ =~= line@.skip(1));
            }
            fx.push(Effect::Send { server: self.active_server.clone(), line: out });
        } else {
            if !str_eqs(self.active_server.as_str(), "System") {
                let result = decode_escapes(line.as_str());
                let out = String::from_str("PRIVMSG ").concat(self.active_channel.as_str()).concat(
                    " :",
                ).concat(result.as_str());
                fx.push(Effect::Send { server: self.active_server.clone(), line: out });
                let sv = self.active_server.clone();
                let cv = self.active_channel.clone();
                let nv = self.active_nick.clone();
                self.chat_bounds(result.clone(), sv, cv, nv);
                proof {
                    assert(crate::state::app_append_rel(
                        *old(self),
                        *self,
                        old(self).active_server,
                        old(self).active_channel,
                        old(self).active_nick,
                        result,
                    ));
                }
            } else {
                let sv = String::from_str("System");
                let cv = String::from_str("Status");
                let nv = String::from_str("Error");
                let dv = String::from_str(
                    "Error currently not connected to a server or in a channel",
                );
                self.chat_bounds(dv.clone(), sv.clone(), cv.clone(), nv.clone());
                proof {
                    assert(crate::state::app_append_rel(
                        *old(self),
                        *self,
                        sv,
                        cv,
                        nv,
                        dv,
                    ));
                }
            }
        }
        fx
    }
}

/// The command processor applied to one submitted line; an empty line
/// does nothing.
pub open spec fn submit_rel(m1: App, m2: App, line: String, fx: Seq<Effect>) -> bool {
    if line@.len() > 0 {
        command_rel(m1, m2, line, fx)
    } else {
        m2 == m1 && fx.len() == 0
    }
}

/// Routes one input event: a submitted prompt line goes through the
/// command processor (and is recorded in the prompt history), navigation
/// keys move the selection or scroll state.
pub fn handle_input(app: &mut App, ev: AppEvent) -> (fx: Vec<Effect>)
    requires
        wf(*old(app)),
    ensures
        wf(*final(app)),
        match ev {
            AppEvent::Resize(w, h) => fx@.len() == 0 && *final(app) == (App {
                w: w,
                h: h,
                ..*old(app)
            }),
            AppEvent::InputEscape => fx@.len() == 0 && *final(app) == (App {
                popup: Popup::Closed,
                list_response: final(app).list_response,
                ..*old(app)
            }) && final(app).list_response@.len() == 0,
            AppEvent::InputSend => {
                &&& final(app).prompt@ == Seq::<char>::empty()
                &&& final(app).popup == Popup::Closed
                &&& final(app).prompt_list@ == old(app).prompt_list@.push(old(app).prompt)
                &&& final(app).prompt_pos == old(app).prompt_list@.len() + 1
                &&& exists|m1: App, m2: App|
                    #[trigger] submit_rel(m1, m2, old(app).prompt, fx@) && m1 == (App {
                        prompt_list: m1.prompt_list,
                        prompt_pos: m1.prompt_pos,
                        ..*old(app)
                    }) && m1.prompt_list@ == old(app).prompt_list@.push(old(app).prompt)
                        && m1.prompt_pos == old(app).prompt_list@.len() + 1 && *final(app) == (App {
                        prompt: final(app).prompt,
                        popup: Popup::Closed,
                        ..m2
                    })
            },
            AppEvent::Popup(k) => fx@.len() == 0 && popup_rel(*old(app), *final(app), k),
            AppEvent::PromptHistory(k) => fx@.len() == 0 && (match k {
                Key::Up => hist_up_rel(*old(app), *final(app)),
                Key::Down => hist_down_rel(*old(app), *final(app)),
                _ => *final(app) == *old(app),
            }),
            AppEvent::ListHistory(k) => fx@.len() == 0 && (match k {
                Key::PageUp => page_up_rel(*old(app), *final(app)),
                Key::PageDown => page_down_rel(*old(app), *final(app)),
                _ => *final(app) == *old(app),
            }),
            AppEvent::SplitSwap => fx@.len() == 0 && crate::select::sides_rel(
                *old(app),
                *final(app),
            ),
        },
{
    match ev {
        AppEvent::InputSend => {
            let line = app.prompt.clone();
            app.prompt_list.push(line.clone());
            app.prompt_pos = app.prompt_list.len();
            let ghost m1 = *app;
            let mut fx: Vec<Effect> = Vec::new();
            if line.as_str().unicode_len() > 0 {
                fx = app.handle_command(&line);
            }
            let ghost m2 = *app;
            app.prompt = String::new();
            app.popup = Popup::Closed;
            proof {
                assert(submit_rel(m1, m2, line, fx@));
                assert(m1 == (App {
                    prompt_list: m1.prompt_list,
                    prompt_pos: m1.prompt_pos,
                    ..*old(app)
                }));
                assert(*app == (App { prompt: app.prompt, popup: Popup::Closed, ..m2 }));
            }
            fx
        },
        AppEvent::Resize(w, h) => {
            app.w = w;
            app.h = h;
            Vec::new()
        },
        AppEvent::Popup(k) => {
            app.popup_key(k);
            Vec::new()
        },
        AppEvent::PromptHistory(k) => {
            match k {
                Key::Up => app.history_up(),
                Key::Down => app.history_down(),
                _ => {},
            }
            Vec::new()
        },
        AppEvent::ListHistory(k) => {
            match k {
                Key::PageUp => app.page_up(),
                Key::PageDown => app.page_down(),
                _ => {},
            }
            Vec::new()
        },
        AppEvent::SplitSwap => {
            app.swap_sides();
            Vec::new()
        },
        AppEvent::InputEscape => {
            app.popup = Popup::Closed;
            app.list_response.clear();
            Vec::new()
        },
    }
}

} // verus!
