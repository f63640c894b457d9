//! The session state model: every server the client is attached to, each
//! server's channels, and the selection state of the user interface.
//!
//! The one history-mutating primitive is [`App::chat_bounds`]: it appends a
//! line to a channel, evicting the oldest entries past the retention
//! ceiling, flags unseen activity on channels that are not on screen, and
//! advances the scroll position of readers that have scrolled forward.

use vstd::prelude::*;
use crate::omap;
use crate::omap::keys_sorted;
use crate::omap::key_idx;
use crate::omap::ins_pos;
use crate::text::str_eqs;
use crate::wrap::wrapped_count;
use crate::wrap::wrap_line_count;

verus! {

/// A channel's history may briefly reach one entry past the high-water
/// mark; the next append evicts down to the retained suffix.
pub const HIGH_WATER: usize = 1000;

/// How many of the oldest entries are dropped when the ceiling is passed.
pub const EVICT: usize = 500;

/// Which popup window, if any, is currently open.
#[derive(Debug, PartialEq, Eq, Structural)]
pub enum Popup {
    Closed,
    Color,
    List,
    Help,
    User,
    Channel,
}

/// State of one chat channel: ordered history of (speaker, text) pairs,
/// the membership list, the scroll position and the unseen-activity flag.
pub struct ChannelData {
    pub chat_list: Vec<(String, String)>,
    pub user_list: Vec<String>,
    pub chat_pos: usize,
    pub notification: bool,
}

/// Per-server session: the channels (keyed by name, in ascending order)
/// and the nickname registered with that server.
pub struct ServerData {
    pub channels: Vec<(String, ChannelData)>,
    pub nick: String,
}

/// The whole client state: sessions keyed by server identifier (ascending),
/// the active (server, channel, nickname) target, the optional split view
/// `(on, left server, left channel, right server, right channel)`, and the
/// remaining interface selection state.
pub struct App {
    pub server_list: Vec<(String, ServerData)>,
    pub exit: bool,
    pub w: u16,
    pub h: u16,
    pub prompt: String,
    pub active_server: String,
    pub active_channel: String,
    pub active_nick: String,
    pub real: String,
    pub spark_data: Vec<u64>,
    pub active_tab: usize,
    pub popup: Popup,
    pub list_response: Vec<String>,
    pub prompt_list: Vec<String>,
    pub prompt_pos: usize,
    pub list_pos: usize,
    pub menu_pos: usize,
    pub split: (bool, String, String, String, String),
}

/// History never holds more than one entry past the high-water mark.
pub open spec fn wf_channel(c: ChannelData) -> bool {
    c.chat_list@.len() <= HIGH_WATER + 1
}

pub open spec fn wf_server(s: ServerData) -> bool {
    &&& keys_sorted(s.channels@)
    &&& forall|i: int| 0 <= i < s.channels@.len() ==> wf_channel(#[trigger] s.channels@[i].1)
}

pub open spec fn wf(app: App) -> bool {
    &&& keys_sorted(app.server_list@)
    &&& forall|i: int| 0 <= i < app.server_list@.len() ==> wf_server(
        #[trigger] app.server_list@[i].1,
    )
    &&& app.prompt_pos <= app.prompt_list@.len()
}


/// Restores the whole-map invariant after one server's value was rewritten
/// in place (its key kept).
pub proof fn lemma_wf_after_update(
    s0: Seq<(String, ServerData)>,
    s1: Seq<(String, ServerData)>,
    si: int,
)
    requires
        keys_sorted(s0),
        forall|i: int| 0 <= i < s0.len() ==> wf_server(#[trigger] s0[i].1),
        0 <= si < s0.len(),
        s1 == s0.update(si, (s0[si].0, s1[si].1)),
        wf_server(s1[si].1),
    ensures
        keys_sorted(s1),
        forall|i: int| 0 <= i < s1.len() ==> wf_server(#[trigger] s1[i].1),
{
    omap::lemma_sorted_update(s0, si, s1[si].1);
    assert forall|i: int| 0 <= i < s1.len() implies wf_server(#[trigger] s1[i].1) by {
        if i != si {
            assert(s1[i] == s0[i]);
        }
    }
}

/// Restores one server's invariant after one channel's value was rewritten
/// in place (its key kept).
pub proof fn lemma_wf_server_after_update(
    c0: Seq<(String, ChannelData)>,
    c1: Seq<(String, ChannelData)>,
    ci: int,
)
    requires
        keys_sorted(c0),
        forall|i: int| 0 <= i < c0.len() ==> wf_channel(#[trigger] c0[i].1),
        0 <= ci < c0.len(),
        c1 == c0.update(ci, (c0[ci].0, c1[ci].1)),
        wf_channel(c1[ci].1),
    ensures
        keys_sorted(c1),
        forall|i: int| 0 <= i < c1.len() ==> wf_channel(#[trigger] c1[i].1),
{
    omap::lemma_sorted_update(c0, ci, c1[ci].1);
    assert forall|i: int| 0 <= i < c1.len() implies wf_channel(#[trigger] c1[i].1) by {
        if i != ci {
            assert(c1[i] == c0[i]);
        }
    }
}

/// The (server, channel) pair is on screen: one of the two split-view
/// targets while the split is active, the sole active target otherwise.
pub open spec fn visible_spec(app: App, sid: Seq<char>, cid: Seq<char>) -> bool {
    if app.split.0 {
        (app.split.1@ == sid && app.split.2@ == cid) || (app.split.3@ == sid && app.split.4@
            == cid)
    } else {
        app.active_server@ == sid && app.active_channel@ == cid
    }
}

/// Usable chat width: the split view halves the window, and fixed borders
/// and gutters are subtracted (never below zero).
pub open spec fn wrap_width_spec(app: App) -> int {
    if app.split.0 {
        if app.w as int / 2 >= 18 {
            app.w as int / 2 - 18
        } else {
            0
        }
    } else {
        if app.w as int >= 16 {
            app.w as int - 16
        } else {
            0
        }
    }
}

/// History after eviction: once past the ceiling, only the newest entries
/// survive, in arrival order.
pub open spec fn trim_hist(h: Seq<(String, String)>) -> Seq<(String, String)> {
    if h.len() > HIGH_WATER {
        h.skip(EVICT as int)
    } else {
        h
    }
}

/// Addition on scroll positions, saturating at the machine limit.
pub open spec fn sat_add(a: int, b: int) -> int {
    if a + b > usize::MAX {
        usize::MAX as int
    } else {
        a + b
    }
}

/// How one append transforms a channel that already existed: evict, append,
/// flag unseen activity unless visible, and advance a forward-scrolled
/// reader by the new line's display height.
pub open spec fn channel_append_rel(
    old_c: ChannelData,
    new_c: ChannelData,
    nick: String,
    data: String,
    vis: bool,
    width: int,
) -> bool {
    &&& new_c.chat_list@ == trim_hist(old_c.chat_list@).push((nick, data))
    &&& new_c.user_list@ == old_c.user_list@
    &&& new_c.notification == (old_c.notification || !vis)
    &&& new_c.chat_pos as int == if old_c.chat_pos > 0 {
        sat_add(old_c.chat_pos as int, wrapped_count(data@, width) as int)
    } else {
        0
    }
}

/// A channel created by its first line.
pub open spec fn fresh_channel_rel(c: ChannelData, nick: String, data: String) -> bool {
    &&& c.chat_list@ =~= seq![(nick, data)]
    &&& c.user_list@.len() == 0
    &&& c.chat_pos == 0
    &&& c.notification == false
}

/// How one append transforms a server's channel map.
pub open spec fn server_append_rel(
    old_s: ServerData,
    new_s: ServerData,
    channel_id: String,
    nick: String,
    data: String,
    vis: bool,
    width: int,
) -> bool {
    &&& new_s.nick == old_s.nick
    &&& match key_idx(old_s.channels@, channel_id@) {
        Option::Some(ci) => {
            &&& new_s.channels@.len() == old_s.channels@.len()
            &&& forall|j: int|
                0 <= j < old_s.channels@.len() && j != ci ==> #[trigger] new_s.channels@[j]
                    == old_s.channels@[j]
            &&& new_s.channels@[ci].0 == old_s.channels@[ci].0
            &&& channel_append_rel(
                old_s.channels@[ci].1,
                new_s.channels@[ci].1,
                nick,
                data,
                vis,
                width,
            )
        },
        Option::None => {
            &&& new_s.channels@ == old_s.channels@.insert(
                ins_pos(old_s.channels@, channel_id@),
                new_s.channels@[ins_pos(old_s.channels@, channel_id@)],
            )
            &&& new_s.channels@[ins_pos(old_s.channels@, channel_id@)].0 == channel_id
            &&& fresh_channel_rel(
                new_s.channels@[ins_pos(old_s.channels@, channel_id@)].1,
                nick,
                data,
            )
        },
    }
}

/// All interface fields of `b` equal those of `a`; only the server map may
/// differ.
pub open spec fn ui_eq(a: App, b: App) -> bool {
    &&& b.exit == a.exit
    &&& b.w == a.w
    &&& b.h == a.h
    &&& b.prompt == a.prompt
    &&& b.active_server == a.active_server
    &&& b.active_channel == a.active_channel
    &&& b.active_nick == a.active_nick
    &&& b.real == a.real
    &&& b.spark_data == a.spark_data
    &&& b.active_tab == a.active_tab
    &&& b.popup == a.popup
    &&& b.list_response == a.list_response
    &&& b.prompt_list == a.prompt_list
    &&& b.prompt_pos == a.prompt_pos
    &&& b.list_pos == a.list_pos
    &&& b.menu_pos == a.menu_pos
    &&& b.split == a.split
}

/// How one append transforms the whole client state: a message for an
/// unknown server changes nothing; otherwise exactly that server's channel
/// map is rewritten as `server_append_rel` says.
pub open spec fn app_append_rel(
    old_a: App,
    new_a: App,
    server_id: String,
    channel_id: String,
    nick: String,
    data: String,
) -> bool {
    &&& ui_eq(old_a, new_a)
    &&& match key_idx(old_a.server_list@, server_id@) {
        Option::None => new_a.server_list@ == old_a.server_list@,
        Option::Some(si) => {
            &&& new_a.server_list@.len() == old_a.server_list@.len()
            &&& forall|j: int|
                0 <= j < old_a.server_list@.len() && j != si ==> #[trigger] new_a.server_list@[j]
                    == old_a.server_list@[j]
            &&& new_a.server_list@[si].0 == old_a.server_list@[si].0
            &&& server_append_rel(
                old_a.server_list@[si].1,
                new_a.server_list@[si].1,
                channel_id,
                nick,
                data,
                visible_spec(old_a, server_id@, channel_id@),
                wrap_width_spec(old_a),
            )
        },
    }
}

impl ChannelData {
    /// A fresh channel holding a single line of history.
    pub fn with_line(nick: String, data: String) -> (r: ChannelData)
        ensures
            fresh_channel_rel(r, nick, data),
            wf_channel(r),
    {
        let mut chat_list: Vec<(String, String)> = Vec::new();
        chat_list.push((nick, data));
        ChannelData { chat_list, user_list: Vec::new(), chat_pos: 0, notification: false }
    }

    /// An empty channel with default scroll and notification state.
    pub fn empty() -> (r: ChannelData)
        ensures
            r.chat_list@.len() == 0,
            r.user_list@.len() == 0,
            r.chat_pos == 0,
            r.notification == false,
            wf_channel(r),
    {
        ChannelData { chat_list: Vec::new(), user_list: Vec::new(), chat_pos: 0, notification: false }
    }
}

/// Evict, append, flag and scroll one existing channel.
fn channel_append(c: &mut ChannelData, nick: String, data: String, vis: bool, width: usize)
    requires
        wf_channel(*old(c)),
    ensures
        channel_append_rel(*old(c), *final(c), nick, data, vis, width as int),
        wf_channel(*final(c)),
{
    if c.chat_list.len() > HIGH_WATER {
        let tail = c.chat_list.split_off(EVICT);
        c.chat_list = tail;
    }
    let count = wrap_line_count(data.as_str(), width);
    c.chat_list.push((nick, data));
    if !vis {
        c.notification = true;
    }
    if c.chat_pos > 0 {
        c.chat_pos = c.chat_pos.saturating_add(count);
    }
}

/// Appends one entry to a channel's history, evicting past the ceiling;
/// scroll and notification state are untouched.
fn hist_push(c: &mut ChannelData, nick: String, data: String)
    requires
        wf_channel(*old(c)),
    ensures
        wf_channel(*final(c)),
        final(c).chat_list@ == trim_hist(old(c).chat_list@).push((nick, data)),
        final(c).user_list == old(c).user_list,
        final(c).chat_pos == old(c).chat_pos,
        final(c).notification == old(c).notification,
{
    if c.chat_list.len() > HIGH_WATER {
        let tail = c.chat_list.split_off(EVICT);
        c.chat_list = tail;
    }
    c.chat_list.push((nick, data));
}

/// The line recorded in a server's Status channel on connect.
pub open spec fn connecting_msg(addr: Seq<char>) -> Seq<char> {
    "<connecting to "@ + addr + ">"@
}

/// The nickname selected from server `sid`, or `fallback` if unknown.
pub open spec fn nick_sel(s: Seq<(String, ServerData)>, sid: Seq<char>, fallback: String) -> String {
    match key_idx(s, sid) {
        Option::Some(si) => s[si].1.nick,
        Option::None => fallback,
    }
}

/// How registering a fresh connection transforms the state: the session is
/// created if absent (with a Status channel and the registered nickname),
/// the active target moves to its Status channel, and the connect notice is
/// appended there.
pub open spec fn register_rel(
    old_a: App,
    new_a: App,
    server_id: String,
    addr: String,
    nick: String,
) -> bool {
    &&& new_a.exit == old_a.exit
    &&& new_a.w == old_a.w
    &&& new_a.h == old_a.h
    &&& new_a.prompt == old_a.prompt
    &&& new_a.real == old_a.real
    &&& new_a.spark_data == old_a.spark_data
    &&& new_a.active_tab == old_a.active_tab
    &&& new_a.popup == old_a.popup
    &&& new_a.list_response == old_a.list_response
    &&& new_a.prompt_list == old_a.prompt_list
    &&& new_a.prompt_pos == old_a.prompt_pos
    &&& new_a.list_pos == old_a.list_pos
    &&& new_a.menu_pos == old_a.menu_pos
    &&& new_a.split == old_a.split
    &&& new_a.active_server == server_id
    &&& new_a.active_channel@ == "Status"@
    &&& new_a.active_nick == nick
    &&& match key_idx(old_a.server_list@, server_id@) {
        Option::Some(si) => {
            &&& new_a.server_list@.len() == old_a.server_list@.len()
            &&& forall|j: int|
                0 <= j < old_a.server_list@.len() && j != si ==> #[trigger] new_a.server_list@[j]
                    == old_a.server_list@[j]
            &&& new_a.server_list@[si].0 == old_a.server_list@[si].0
            &&& new_a.server_list@[si].1.nick == old_a.server_list@[si].1.nick
            &&& status_push_rel(
                old_a.server_list@[si].1.channels@,
                new_a.server_list@[si].1.channels@,
                addr,
            )
        },
        Option::None => {
            &&& new_a.server_list@.len() == old_a.server_list@.len() + 1
            &&& exists|si: int|
                {
                    &&& 0 <= si < new_a.server_list@.len()
                    &&& #[trigger] new_a.server_list@[si].0 == server_id
                    &&& new_a.server_list@[si].1.nick == nick
                    &&& new_a.server_list@[si].1.channels@.len() == 1
                    &&& new_a.server_list@[si].1.channels@[0].0@ == "Status"@
                    &&& new_a.server_list@[si].1.channels@[0].1.chat_list@.len() == 1
                    &&& new_a.server_list@[si].1.channels@[0].1.chat_list@[0].0@ == "System"@
                    &&& new_a.server_list@[si].1.channels@[0].1.chat_list@[0].1@
                        == connecting_msg(addr@)
                    &&& new_a.server_list@ == old_a.server_list@.insert(
                        ins_pos(old_a.server_list@, server_id@),
                        new_a.server_list@[si],
                    )
                }
        },
    }
}

/// The connect notice lands in the Status channel, if the server has one.
pub open spec fn status_push_rel(
    c0: Seq<(String, ChannelData)>,
    c1: Seq<(String, ChannelData)>,
    addr: String,
) -> bool {
    match key_idx(c0, "Status"@) {
        Option::None => c1 == c0,
        Option::Some(ci) => {
            &&& c1.len() == c0.len()
            &&& forall|j: int| 0 <= j < c0.len() && j != ci ==> #[trigger] c1[j] == c0[j]
            &&& c1[ci].0 == c0[ci].0
            &&& c1[ci].1.chat_list@.len() == trim_hist(c0[ci].1.chat_list@).len() + 1
            &&& c1[ci].1.chat_list@ == trim_hist(c0[ci].1.chat_list@).push(
                c1[ci].1.chat_list@.last(),
            )
            &&& c1[ci].1.chat_list@.last().0@ == "System"@
            &&& c1[ci].1.chat_list@.last().1@ == connecting_msg(addr@)
            &&& c1[ci].1.user_list == c0[ci].1.user_list
            &&& c1[ci].1.chat_pos == c0[ci].1.chat_pos
            &&& c1[ci].1.notification == c0[ci].1.notification
        },
    }
}

impl App {
    /// Index of the session for `server_id`, if one exists.
    pub fn find_server(&self, server_id: &str) -> (r: Option<usize>)
        ensures
            match r {
                Option::Some(i) => key_idx(self.server_list@, server_id@) == Option::Some(
                    i as int,
                ),
                Option::None => key_idx(self.server_list@, server_id@) is None,
            },
    {
        omap::find_idx(&self.server_list, server_id)
    }

    /// Whether the pair is currently on screen.
    pub fn is_visible(&self, server_id: &str, channel_id: &str) -> (r: bool)
        ensures
            r == visible_spec(*self, server_id@, channel_id@),
    {
        if self.split.0 {
            (str_eqs(self.split.1.as_str(), server_id) && str_eqs(self.split.2.as_str(), channel_id))
                || (str_eqs(self.split.3.as_str(), server_id) && str_eqs(
                self.split.4.as_str(),
                channel_id,
            ))
        } else {
            str_eqs(self.active_server.as_str(), server_id) && str_eqs(
                self.active_channel.as_str(),
                channel_id,
            )
        }
    }

    /// The usable chat width at the current window size.
    pub fn wrap_width(&self) -> (r: usize)
        ensures
            r as int == wrap_width_spec(*self),
    {
        if self.split.0 {
            (self.w as usize / 2).saturating_sub(18)
        } else {
            (self.w as usize).saturating_sub(16)
        }
    }

    /// Appends one line to the named channel of the named server, opening
    /// the channel if it was absent; a message for an unknown server is
    /// dropped.
    pub fn chat_bounds(&mut self, data: String, server_id: String, channel_id: String, nick: String)
        requires
            wf(*old(self)),
        ensures
            wf(*final(self)),
            app_append_rel(*old(self), *final(self), server_id, channel_id, nick, data),
    {
        let si = match self.find_server(server_id.as_str()) {
            Option::Some(si) => si,
            Option::None => {
                return ;
            },
        };
        proof {
            omap::lemma_key_idx(self.server_list@, server_id@);
        }
        let vis = self.is_visible(server_id.as_str(), channel_id.as_str());
        let width = self.wrap_width();
        let ghost old_app = *self;
        let ghost gcid = channel_id;
        let srv = omap::val_mut(&mut self.server_list, si);
        let ghost old_srv = *srv;
        let ci = omap::find_idx(&srv.channels, channel_id.as_str());
        match ci {
            Option::Some(ci) => {
                proof {
                    omap::lemma_key_idx(srv.channels@, channel_id@);
                }
                let ch = omap::val_mut(&mut srv.channels, ci);
                channel_append(ch, nick, data, vis, width);
                proof {
                    omap::lemma_sorted_update(
                        old_srv.channels@,
                        ci as int,
                        srv.channels@[ci as int].1,
                    );
                    assert forall|j: int| 0 <= j < srv.channels@.len() implies wf_channel(
                        #[trigger] srv.channels@[j].1,
                    ) by {
                        if j != ci as int {
                            assert(srv.channels@[j] == old_srv.channels@[j]);
                        }
                    }
                    assert(wf_server(*srv));
                }
            },
            Option::None => {
                let fresh = ChannelData::with_line(nick, data);
                let ghost gfresh = fresh;
                proof {
                    omap::lemma_ins_pos(old_srv.channels@, gcid@);
                }
                omap::insert_sorted(&mut srv.channels, channel_id, fresh);
                proof {
                    let p = ins_pos(old_srv.channels@, gcid@);
                    old_srv.channels@.insert_ensures(p, (gcid, gfresh));
                    assert(srv.channels@[p] == (gcid, gfresh));
                    assert forall|j: int| 0 <= j < srv.channels@.len() implies wf_channel(
                        #[trigger] srv.channels@[j].1,
                    ) by {
                        if j < p {
                            assert(srv.channels@[j] == old_srv.channels@[j]);
                        } else if j > p {
                            assert(srv.channels@[j] == old_srv.channels@[j - 1]);
                        }
                    }
                    assert(wf_server(*srv));
                }
            },
        }
        proof {
            lemma_wf_after_update(old_app.server_list@, self.server_list@, si as int);
        }
    }

    /// Marks the session for shutdown; the event loop then winds down every
    /// connection and exits.
    pub fn quit(&mut self)
        ensures
            *final(self) == (App { exit: true, ..*old(self) }),
    {
        self.exit = true;
    }

    /// Records a freshly established connection: creates the session if it
    /// was absent, moves the active target to its Status channel and notes
    /// the connect there.
    pub fn register_connected(&mut self, server_id: String, addr: String, nick: String)
        requires
            wf(*old(self)),
        ensures
            wf(*final(self)),
            register_rel(*old(self), *final(self), server_id, addr, nick),
    {
        let ghost old_app = *self;
        let msg = String::from_str("<connecting to ").concat(addr.as_str()).concat(">");
        match self.find_server(server_id.as_str()) {
            Option::None => {
                let status = ChannelData::with_line(String::from_str("System"), msg);
                let mut channels: Vec<(String, ChannelData)> = Vec::new();
                channels.push((String::from_str("Status"), status));
                let sd = ServerData { channels, nick: nick.clone() };
                proof {
                    assert(keys_sorted(sd.channels@));
                    assert(wf_channel(sd.channels@[0].1));
                    assert(wf_server(sd));
                    omap::lemma_ins_pos(old_app.server_list@, server_id@);
                }
                let ghost gsd = sd;
                omap::insert_sorted(&mut self.server_list, server_id.clone(), sd);
                self.active_server = server_id;
                self.active_channel = String::from_str("Status");
                self.active_nick = nick;
                proof {
                    let sid = old_app.server_list@;
                    let p = ins_pos(sid, self.active_server@);
                    sid.insert_ensures(p, (self.server_list@[p].0, gsd));
                    assert(self.server_list@[p].1 == gsd);
                    assert forall|j: int| 0 <= j < self.server_list@.len() implies wf_server(
                        #[trigger] self.server_list@[j].1,
                    ) by {
                        if j < p {
                            assert(self.server_list@[j] == sid[j]);
                        } else if j > p {
                            assert(self.server_list@[j] == sid[j - 1]);
                        }
                    }
                }
            },
            Option::Some(si) => {
                proof {
                    omap::lemma_key_idx(self.server_list@, server_id@);
                }
                self.active_server = server_id;
                self.active_channel = String::from_str("Status");
                self.active_nick = nick;
                let ghost mid_app = *self;
                let srv = omap::val_mut(&mut self.server_list, si);
                let ghost old_srv = *srv;
                match omap::find_idx(&srv.channels, "Status") {
                    Option::Some(ci) => {
                        proof {
                            omap::lemma_key_idx(srv.channels@, "Status"@);
                        }
                        let ch = omap::val_mut(&mut srv.channels, ci);
                        hist_push(ch, String::from_str("System"), msg);
                        proof {
                            omap::lemma_sorted_update(
                                old_srv.channels@,
                                ci as int,
                                srv.channels@[ci as int].1,
                            );
                            assert forall|j: int| 0 <= j < srv.channels@.len() implies wf_channel(
                                #[trigger] srv.channels@[j].1,
                            ) by {
                                if j != ci as int {
                                    assert(srv.channels@[j] == old_srv.channels@[j]);
                                }
                            }
                            assert(wf_server(*srv));
                        }
                    },
                    Option::None => {},
                }
                proof {
                    lemma_wf_after_update(mid_app.server_list@, self.server_list@, si as int);
                }
            },
        }
    }
}

impl App {
    /// The freshly started client: only the virtual System server exists,
    /// its Status channel shows the greeting banner, and it is the active
    /// target under the given nickname.
    pub fn startup(nick: String, realname: String, w: u16, h: u16) -> (r: App)
        ensures
            wf(r),
            r.server_list@.len() == 1,
            r.server_list@[0].0@ == "System"@,
            r.server_list@[0].1.nick == nick,
            r.server_list@[0].1.channels@.len() == 1,
            r.server_list@[0].1.channels@[0].0@ == "Status"@,
            r.server_list@[0].1.channels@[0].1.chat_list@.len() == 6,
            r.server_list@[0].1.channels@[0].1.user_list@.len() == 0,
            r.server_list@[0].1.channels@[0].1.chat_pos == 0,
            r.server_list@[0].1.channels@[0].1.notification == false,
            r.exit == false,
            r.w == w,
            r.h == h,
            r.prompt@ == Seq::<char>::empty(),
            r.active_server@ == "System"@,
            r.active_channel@ == "Status"@,
            r.active_nick == nick,
            r.real == realname,
            r.active_tab == usize::MAX,
            r.popup == Popup::Closed,
            r.list_response@.len() == 0,
            r.prompt_list@.len() == 0,
            r.prompt_pos == 0,
            r.list_pos == 0,
            r.menu_pos == 0,
            r.split.0 == false,
    {
        let mut banner: Vec<(String, String)> = Vec::new();
        let who = String::from_str("System");
        banner.push((who.clone(), String::from_str("    __           _           ___ _           _   ")));
        banner.push((who.clone(), String::from_str("   /__\\_   _ ___| |_ _   _  / __\\ |__   __ _| |_ ")));
        banner.push((who.clone(), String::from_str("  / \\// | | / __| __| | | |/ /  | '_ \\ / _` | __|")));
        banner.push((who.clone(), String::from_str(" / _  \\ |_| \\__ \\ |_| |_| / /___| | | | (_| | |_ ")));
        banner.push((who.clone(), String::from_str(" \\/ \\_/\\__,_|___/\\__|\\__, \\____/|_| |_|\\__,_|\\__|")));
        banner.push((who.clone(), String::from_str("                     |___/                       ")));
        let status = ChannelData {
            chat_list: banner,
            user_list: Vec::new(),
            chat_pos: 0,
            notification: false,
        };
        let mut channels: Vec<(String, ChannelData)> = Vec::new();
        channels.push((String::from_str("Status"), status));
        let sd = ServerData { channels, nick: nick.clone() };
        let mut server_list: Vec<(String, ServerData)> = Vec::new();
        server_list.push((String::from_str("System"), sd));
        let mut spark_data: Vec<u64> = Vec::new();
        App {
            server_list,
            exit: false,
            w,
            h,
            prompt: String::new(),
            active_server: String::from_str("System"),
            active_channel: String::from_str("Status"),
            active_nick: nick,
            real: realname,
            spark_data,
            active_tab: usize::MAX,
            popup: Popup::Closed,
            list_response: Vec::new(),
            prompt_list: Vec::new(),
            prompt_pos: 0,
            list_pos: 0,
            menu_pos: 0,
            split: (false, String::new(), String::new(), String::new(), String::new()),
        }
    }
}

} // verus!
