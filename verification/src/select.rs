//! Target selection: the flattened enumeration of all open channels, the
//! swap and split-view commands, side switching, and the local state
//! updates for disconnecting a server or parting a channel.

use vstd::prelude::*;
use crate::omap;
use crate::omap::key_idx;
use crate::text::str_eqs;
use crate::state::App;
use crate::state::ChannelData;
use crate::state::ServerData;
use crate::state::wf;
use crate::state::wf_channel;
use crate::state::wf_server;
use crate::state::nick_sel;

verus! {

/// The (server, channel-name) pairs contributed by one server.
pub open spec fn chan_names(sid: String, cs: Seq<(String, ChannelData)>) -> Seq<(String, String)> {
    cs.map_values(|c: (String, ChannelData)| (sid, c.0))
}

/// The deterministic enumeration every swap or split index refers to:
/// servers in ascending order, each server's channels in ascending order.
pub open spec fn pairs_spec(s: Seq<(String, ServerData)>) -> Seq<(String, String)>
    decreases s.len(),
{
    if s.len() == 0 {
        Seq::empty()
    } else {
        chan_names(s[0].0, s[0].1.channels@) + pairs_spec(s.drop_first())
    }
}

proof fn lemma_pairs_step(s: Seq<(String, ServerData)>, i: int)
    requires
        0 <= i < s.len(),
    ensures
        pairs_spec(s.take(i + 1)) == pairs_spec(s.take(i)) + chan_names(
            s[i].0,
            s[i].1.channels@,
        ),
    decreases i,
{
    if i == 0 {
        assert(s.take(0) =~= Seq::<(String, ServerData)>::empty());
        assert(s.take(1)[0] == s[0]);
        assert(s.take(1).drop_first() =~= Seq::<(String, ServerData)>::empty());
        assert(pairs_spec(s.take(1)) =~= pairs_spec(s.take(0)) + chan_names(
            s[0].0,
            s[0].1.channels@,
        ));
    } else {
        lemma_pairs_step(s.drop_first(), i - 1);
        assert(s.take(i + 1)[0] == s[0]);
        assert(s.take(i + 1).drop_first() =~= s.drop_first().take(i));
        assert(s.take(i)[0] == s[0]);
        assert(s.take(i).drop_first() =~= s.drop_first().take(i - 1));
        assert(s.drop_first()[i - 1] == s[i]);
        assert(pairs_spec(s.take(i + 1)) =~= pairs_spec(s.take(i)) + chan_names(
            s[i].0,
            s[i].1.channels@,
        ));
    }
}

/// One channel's scroll and notification state reset; everything else
/// unchanged.
pub open spec fn chans_reset_rel(
    c0: Seq<(String, ChannelData)>,
    c1: Seq<(String, ChannelData)>,
    cid: Seq<char>,
) -> bool {
    match key_idx(c0, cid) {
        Option::None => c1 == c0,
        Option::Some(ci) => {
            &&& c1.len() == c0.len()
            &&& forall|j: int| 0 <= j < c0.len() && j != ci ==> #[trigger] c1[j] == c0[j]
            &&& c1[ci].0 == c0[ci].0
            &&& c1[ci].1.chat_list == c0[ci].1.chat_list
            &&& c1[ci].1.user_list == c0[ci].1.user_list
            &&& c1[ci].1.chat_pos == 0
            &&& c1[ci].1.notification == false
        },
    }
}

/// Reset applied through the server map; unknown names change nothing.
pub open spec fn srv_reset_rel(
    s0: Seq<(String, ServerData)>,
    s1: Seq<(String, ServerData)>,
    sid: Seq<char>,
    cid: Seq<char>,
) -> bool {
    match key_idx(s0, sid) {
        Option::None => s1 == s0,
        Option::Some(si) => {
            &&& s1.len() == s0.len()
            &&& forall|j: int| 0 <= j < s0.len() && j != si ==> #[trigger] s1[j] == s0[j]
            &&& s1[si].0 == s0[si].0
            &&& s1[si].1.nick == s0[si].1.nick
            &&& chans_reset_rel(s0[si].1.channels@, s1[si].1.channels@, cid)
        },
    }
}


/// How `/swap n` transforms the state: out of range changes nothing; in
/// range the split view closes, the `n`th enumerated pair becomes the
/// active target, its server's nickname is adopted, and that channel's
/// scroll and unseen state reset.
pub open spec fn swap_rel(a: App, b: App, n: int) -> bool {
    let ps = pairs_spec(a.server_list@);
    if n >= ps.len() {
        b == a
    } else {
        &&& sel_eq(a, b)
        &&& b.split.0 == false
        &&& b.split.1@ == Seq::<char>::empty()
        &&& b.split.2@ == Seq::<char>::empty()
        &&& b.split.3@ == Seq::<char>::empty()
        &&& b.split.4@ == Seq::<char>::empty()
        &&& b.active_server == ps[n].0
        &&& b.active_channel == ps[n].1
        &&& b.active_nick == nick_sel(a.server_list@, ps[n].0@, a.active_nick)
        &&& srv_reset_rel(a.server_list@, b.server_list@, ps[n].0@, ps[n].1@)
    }
}

/// How `/split l-r` transforms the state: either index out of range
/// changes nothing; otherwise the two enumerated pairs become the split
/// sides, the left one becomes the active target, and both channels'
/// scroll and unseen state reset.
pub open spec fn split_rel(a: App, b: App, left: int, right: int) -> bool {
    let ps = pairs_spec(a.server_list@);
    if left >= ps.len() || right >= ps.len() {
        b == a
    } else {
        &&& sel_eq(a, b)
        &&& b.split == (true, ps[left].0, ps[left].1, ps[right].0, ps[right].1)
        &&& b.active_server == ps[left].0
        &&& b.active_channel == ps[left].1
        &&& b.active_nick == nick_sel(a.server_list@, ps[left].0@, a.active_nick)
        &&& exists|mid: Seq<(String, ServerData)>|
            #[trigger] srv_reset_rel(a.server_list@, mid, ps[left].0@, ps[left].1@)
                && srv_reset_rel(mid, b.server_list@, ps[right].0@, ps[right].1@)
    }
}

/// Every field of `b` equals that of `a` except the server map, the
/// active target and the split view.
pub open spec fn sel_eq(a: App, b: App) -> bool {
    &&& b.exit == a.exit
    &&& b.w == a.w
    &&& b.h == a.h
    &&& b.prompt == a.prompt
    &&& b.real == a.real
    &&& b.spark_data == a.spark_data
    &&& b.active_tab == a.active_tab
    &&& b.popup == a.popup
    &&& b.list_response == a.list_response
    &&& b.prompt_list == a.prompt_list
    &&& b.prompt_pos == a.prompt_pos
    &&& b.list_pos == a.list_pos
    &&& b.menu_pos == a.menu_pos
}

/// Focus moves to the other side of an active split view.
pub open spec fn sides_rel(a: App, b: App) -> bool {
    &&& (sel_eq(a, b))
    &&& (b.server_list == a.server_list)
    &&& (b.split == a.split)
    &&& (!a.split.0 ==> b == a)
    &&& (a.split.0 ==> ({
                if a.active_server@ == a.split.1@ && a.active_channel@
                    == a.split.2@ {
                    &&& b.active_server == a.split.3
                    &&& b.active_channel == a.split.4
                    &&& b.active_nick == nick_sel(
                        a.server_list@,
                        a.split.3@,
                        a.active_nick,
                    )
                } else {
                    &&& b.active_server == a.split.1
                    &&& b.active_channel == a.split.2
                    &&& b.active_nick == nick_sel(
                        a.server_list@,
                        a.split.1@,
                        a.active_nick,
                    )
                }
            }))
}

impl App {
    /// The flattened channel enumeration, as two parallel lists of server
    /// identifiers and channel names.
    pub fn channel_pairs(&self) -> (r: (Vec<String>, Vec<String>))
        ensures
            r.0@.len() == pairs_spec(self.server_list@).len(),
            r.1@.len() == r.0@.len(),
            forall|k: int|
                0 <= k < r.0@.len() ==> #[trigger] pairs_spec(self.server_list@)[k] == (
                    r.0@[k],
                    r.1@[k],
                ),
    {
        let mut r0: Vec<String> = Vec::new();
        let mut r1: Vec<String> = Vec::new();
        let ghost s = self.server_list@;
        let slen = self.server_list.len();
        proof {
            assert(s.take(0) =~= Seq::<(String, ServerData)>::empty());
        }
        let mut i: usize = 0;
        while i < slen
            invariant
                0 <= i <= slen,
                slen == s.len(),
                self.server_list@ == s,
                r0@.len() == pairs_spec(s.take(i as int)).len(),
                r1@.len() == r0@.len(),
                forall|k: int|
                    0 <= k < r0@.len() ==> #[trigger] pairs_spec(s.take(i as int))[k] == (
                        r0@[k],
                        r1@[k],
                    ),
            decreases slen - i,
        {
            let ghost cs = s[i as int].1.channels@;
            let ghost base = pairs_spec(s.take(i as int));
            let clen = self.server_list[i].1.channels.len();
            let mut j: usize = 0;
            while j < clen
                invariant
                    0 <= j <= clen,
                    i < slen,
                    slen == s.len(),
                    clen == cs.len(),
                    self.server_list@ == s,
                    cs == s[i as int].1.channels@,
                    base == pairs_spec(s.take(i as int)),
                    r0@.len() == base.len() + j,
                    r1@.len() == r0@.len(),
                    forall|k: int| 0 <= k < base.len() ==> #[trigger] base[k] == (r0@[k], r1@[k]),
                    forall|jj: int|
                        0 <= jj < j ==> #[trigger] r0@[base.len() + jj] == s[i as int].0,
                    forall|jj: int| 0 <= jj < j ==> #[trigger] r1@[base.len() + jj] == cs[jj].0,
                decreases clen - j,
            {
                r0.push(self.server_list[i].0.clone());
                r1.push(self.server_list[i].1.channels[j].0.clone());
                proof {
                    assert(r0@[base.len() + j as int] == s[i as int].0);
                    assert(r1@[base.len() + j as int] == cs[j as int].0);
                }
                j = j + 1;
            }
            proof {
                lemma_pairs_step(s, i as int);
                assert forall|k: int| 0 <= k < r0@.len() implies #[trigger] pairs_spec(
                    s.take(i as int + 1),
                )[k] == (r0@[k], r1@[k]) by {
                    let cn = chan_names(s[i as int].0, cs);
                    assert(pairs_spec(s.take(i as int + 1)) == base + cn);
                    if k < base.len() {
                        assert((base + cn)[k] == base[k]);
                    } else {
                        assert((base + cn)[k] == cn[k - base.len()]);
                        assert(cn[k - base.len()] == (s[i as int].0, cs[k - base.len()].0));
                        assert(r0@[base.len() + (k - base.len())] == s[i as int].0);
                        assert(r1@[base.len() + (k - base.len())] == cs[k - base.len()].0);
                    }
                }
            }
            i = i + 1;
        }
        proof {
            assert(s.take(slen as int) =~= s);
        }
        (r0, r1)
    }

    /// Clears the scroll position and unseen flag of one channel.
    fn reset_channel_state(&mut self, server_id: &str, channel_id: &str)
        requires
            wf(*old(self)),
        ensures
            wf(*final(self)),
            crate::state::ui_eq(*old(self), *final(self)),
            srv_reset_rel(old(self).server_list@, final(self).server_list@, server_id@, channel_id@),
    {
        let si = match self.find_server(server_id) {
            Option::Some(si) => si,
            Option::None => {
                return ;
            },
        };
        proof {
            omap::lemma_key_idx(self.server_list@, server_id@);
        }
        let ghost old_app = *self;
        let srv = omap::val_mut(&mut self.server_list, si);
        let ghost old_srv = *srv;
        match omap::find_idx(&srv.channels, channel_id) {
            Option::Some(ci) => {
                proof {
                    omap::lemma_key_idx(srv.channels@, channel_id@);
                }
                let ch = omap::val_mut(&mut srv.channels, ci);
                ch.chat_pos = 0;
                ch.notification = false;
                proof {
                    omap::lemma_sorted_update(
                        old_srv.channels@,
                        ci as int,
                        srv.channels@[ci as int].1,
                    );
                    assert forall|j: int| 0 <= j < srv.channels@.len() implies wf_channel(
                        #[trigger] srv.channels@[j].1,
                    ) by {
                        if j != ci as int {
                            assert(srv.channels@[j] == old_srv.channels@[j]);
                        }
                    }
                    assert(wf_server(*srv));
                }
            },
            Option::None => {},
        }
        proof {
            crate::state::lemma_wf_after_update(
                old_app.server_list@,
                self.server_list@,
                si as int,
            );
        }
    }

    /// Copies the nickname registered with `server_id` into the active
    /// nickname, if that server exists.
    fn set_nick_from(&mut self, server_id: &str)
        ensures
            sel_eq(*old(self), *final(self)),
            final(self).server_list == old(self).server_list,
            final(self).active_server == old(self).active_server,
            final(self).active_channel == old(self).active_channel,
            final(self).split == old(self).split,
            final(self).active_nick == nick_sel(
                old(self).server_list@,
                server_id@,
                old(self).active_nick,
            ),
    {
        match self.find_server(server_id) {
            Option::Some(si) => {
                proof {
                    omap::lemma_key_idx(self.server_list@, server_id@);
                }
                self.active_nick = self.server_list[si].1.nick.clone();
            },
            Option::None => {},
        }
    }

    /// Focuses the `n`th entry of the channel enumeration, leaving any
    /// split view; an out-of-range index changes nothing.
    pub fn swap_to(&mut self, n: usize)
        requires
            wf(*old(self)),
        ensures
            wf(*final(self)),
            swap_rel(*old(self), *final(self), n as int),
    {
        let (r0, r1) = self.channel_pairs();
        if n < r0.len() {
            proof {
                assert(pairs_spec(self.server_list@)[n as int] == (r0@[n as int], r1@[n as int]));
            }
            self.split = (false, String::new(), String::new(), String::new(), String::new());
            self.active_server = r0[n].clone();
            self.active_channel = r1[n].clone();
            let sid = self.active_server.clone();
            self.set_nick_from(sid.as_str());
            let cid = self.active_channel.clone();
            proof {
                assert(wf(*self));
            }
            self.reset_channel_state(sid.as_str(), cid.as_str());
        }
    }

    /// Shows the `left`th and `right`th entries of the enumeration side by
    /// side and focuses the left one; any out-of-range index cancels the
    /// whole operation.
    pub fn split_to(&mut self, left: usize, right: usize)
        requires
            wf(*old(self)),
        ensures
            wf(*final(self)),
            split_rel(*old(self), *final(self), left as int, right as int),
    {
        let (r0, r1) = self.channel_pairs();
        if left < r0.len() && right < r0.len() {
            proof {
                assert(pairs_spec(self.server_list@)[left as int] == (
                    r0@[left as int],
                    r1@[left as int],
                ));
                assert(pairs_spec(self.server_list@)[right as int] == (
                    r0@[right as int],
                    r1@[right as int],
                ));
            }
            self.split = (
                true,
                r0[left].clone(),
                r1[left].clone(),
                r0[right].clone(),
                r1[right].clone(),
            );
            self.active_server = r0[left].clone();
            self.active_channel = r1[left].clone();
            let lsid = r0[left].clone();
            self.set_nick_from(lsid.as_str());
            let lcid = r1[left].clone();
            proof {
                assert(wf(*self));
            }
            self.reset_channel_state(lsid.as_str(), lcid.as_str());
            let ghost mid = self.server_list@;
            let rsid = r0[right].clone();
            let rcid = r1[right].clone();
            self.reset_channel_state(rsid.as_str(), rcid.as_str());
            proof {
                assert(srv_reset_rel(
                    old(self).server_list@,
                    mid,
                    pairs_spec(old(self).server_list@)[left as int].0@,
                    pairs_spec(old(self).server_list@)[left as int].1@,
                ));
            }
        }
    }

    /// Moves the focus to the other side of an active split view.
    pub fn swap_sides(&mut self)
        ensures
            sides_rel(*old(self), *final(self)),
    {
        if self.split.0 {
            let on_left = str_eqs(self.active_server.as_str(), self.split.1.as_str()) && str_eqs(
                self.active_channel.as_str(),
                self.split.2.as_str(),
            );
            if on_left {
                self.active_server = self.split.3.clone();
                self.active_channel = self.split.4.clone();
                let sid = self.split.3.clone();
                self.set_nick_from(sid.as_str());
            } else {
                self.active_server = self.split.1.clone();
                self.active_channel = self.split.2.clone();
                let sid = self.split.1.clone();
                self.set_nick_from(sid.as_str());
            }
        }
    }
}

/// How forgetting a server transforms the state. The virtual System
/// server always exists and is never torn down; forgetting any other
/// session drops it and repairs the active target and split view.
pub open spec fn disconnect_rel(a: App, b: App, sid: Seq<char>, r: bool) -> bool {
    if sid == "System"@ {
        !r && b == a
    } else {
        match key_idx(a.server_list@, sid) {
                Option::None => !r && b == a,
                Option::Some(si) => {
                    &&& r
                    &&& sel_eq(a, b)
                    &&& b.active_nick == a.active_nick
                    &&& b.server_list@ == a.server_list@.remove(si)
                    &&& ({
                        let osp = a.split;
                        if osp.0 {
                            if sid == osp.1@ {
                                &&& b.split.0 == true
                                &&& b.split.1@ == "System"@
                                &&& b.split.2@ == "Status"@
                                &&& b.split.3 == osp.3
                                &&& b.split.4 == osp.4
                                &&& if a.active_server@ == osp.1@ {
                                    b.active_server@ == "System"@ && b.active_channel@ == "Status"@
                                } else {
                                    b.active_server == a.active_server && b.active_channel == a.active_channel
                                }
                            } else if sid == osp.3@ {
                                &&& b.split.0 == true
                                &&& b.split.1 == osp.1
                                &&& b.split.2 == osp.2
                                &&& b.split.3@ == "System"@
                                &&& b.split.4@ == "Status"@
                                &&& if a.active_server@ == osp.3@ {
                                    b.active_server@ == "System"@ && b.active_channel@ == "Status"@
                                } else {
                                    b.active_server == a.active_server && b.active_channel == a.active_channel
                                }
                            } else {
                                &&& b.split == osp
                                &&& b.active_server == a.active_server
                                &&& b.active_channel == a.active_channel
                            }
                        } else {
                            &&& b.split == osp
                            &&& if a.active_server@ == sid {
                                b.active_server@ == "System"@ && b.active_channel@ == "Status"@
                            } else {
                                b.active_server == a.active_server && b.active_channel == a.active_channel
                            }
                        }
                    })
                },
            }
    }
}

/// How parting a channel of the active server transforms the state. The
/// System server's Status channel always exists and is never parted; any
/// other channel is dropped, the active target and split view falling back
/// to System/Status when they pointed at it.
pub open spec fn part_rel(a: App, b: App, cid: Seq<char>, r: PartOutcome) -> bool {
    if a.active_server@ == "System"@ && cid == "Status"@ {
        r == PartOutcome::Kept && b == a
    } else {
        match key_idx(a.server_list@, a.active_server@) {
                Option::None => r == PartOutcome::NoServer && b == a,
                Option::Some(si) => {
                    match key_idx(a.server_list@[si].1.channels@, cid) {
                        Option::None => {
                            &&& r == PartOutcome::NotJoined
                            &&& sel_eq(a, b)
                            &&& b.server_list@ == a.server_list@
                            &&& b.split == a.split
                            &&& b.active_server == a.active_server
                            &&& b.active_channel == a.active_channel
                            &&& b.active_nick == a.active_nick
                        },
                        Option::Some(ci) => {
                            &&& r == PartOutcome::Removed
                            &&& sel_eq(a, b)
                            &&& b.active_nick == a.active_nick
                            &&& b.server_list@.len() == a.server_list@.len()
                            &&& forall|j: int|
                                0 <= j < a.server_list@.len() && j != si
                                    ==> #[trigger] b.server_list@[j] == a.server_list@[j]
                            &&& b.server_list@[si].0 == a.server_list@[si].0
                            &&& b.server_list@[si].1.nick == a.server_list@[si].1.nick
                            &&& b.server_list@[si].1.channels@ == a.server_list@[si].1.channels@.remove(ci)
                            &&& ({
                                let osp = a.split;
                                if osp.0 {
                                    if a.active_channel@ == cid {
                                        &&& b.split.0 == true
                                        &&& b.split.1@ == "System"@
                                        &&& b.split.2@ == "Status"@
                                        &&& b.split.3 == osp.3
                                        &&& b.split.4 == osp.4
                                        &&& b.active_server@ == "System"@
                                        &&& b.active_channel@ == "Status"@
                                    } else if a.active_channel@ == osp.4@ {
                                        &&& b.split.0 == true
                                        &&& b.split.1 == osp.1
                                        &&& b.split.2 == osp.2
                                        &&& b.split.3@ == "System"@
                                        &&& b.split.4@ == "Status"@
                                        &&& b.active_server@ == "System"@
                                        &&& b.active_channel@ == "Status"@
                                    } else {
                                        &&& b.split == osp
                                        &&& b.active_server == a.active_server
                                        &&& b.active_channel == a.active_channel
                                    }
                                } else {
                                    &&& b.split == osp
                                    &&& if a.active_channel@ == cid {
                                        b.active_server@ == "System"@ && b.active_channel@ == "Status"@
                                    } else {
                                        b.active_server == a.active_server
                                            && b.active_channel == a.active_channel
                                    }
                                }
                            })
                        },
                    }
                },
            }
    }
}

/// Outcome of a local channel part.
#[derive(Debug, PartialEq, Eq, Structural)]
pub enum PartOutcome {
    NoServer,
    Removed,
    NotJoined,
    Kept,
}

impl App {
    /// Forgets the named server's session. The active target and a split
    /// side that pointed into it fall back to the System server's Status
    /// channel; an unknown name changes nothing.
    pub fn disconnect_local(&mut self, server_id: &str) -> (existed: bool)
        requires
            wf(*old(self)),
        ensures
            wf(*final(self)),
            disconnect_rel(*old(self), *final(self), server_id@, existed),
    {
        proof {
            reveal_strlit("System");
        }
        if str_eqs(server_id, "System") {
            return false;
        }
        let ghost s0 = self.server_list@;
        let existed = omap::remove_key(&mut self.server_list, server_id);
        if !existed {
            return false;
        }
        proof {
            omap::lemma_key_idx(s0, server_id@);
            let si = key_idx(s0, server_id@)->Some_0;
            s0.remove_ensures(si);
            assert forall|i: int| 0 <= i < self.server_list@.len() implies wf_server(
                #[trigger] self.server_list@[i].1,
            ) by {
                if i < si {
                    assert(self.server_list@[i] == s0[i]);
                } else {
                    assert(self.server_list@[i] == s0[i + 1]);
                }
            }
        }
        if self.split.0 {
            if str_eqs(server_id, self.split.1.as_str()) {
                self.split = (
                    true,
                    String::from_str("System"),
                    String::from_str("Status"),
                    self.split.3.clone(),
                    self.split.4.clone(),
                );
                if str_eqs(self.active_server.as_str(), server_id) {
                    self.active_server = String::from_str("System");
                    self.active_channel = String::from_str("Status");
                }
            } else if str_eqs(server_id, self.split.3.as_str()) {
                self.split = (
                    true,
                    self.split.1.clone(),
                    self.split.2.clone(),
                    String::from_str("System"),
                    String::from_str("Status"),
                );
                if str_eqs(self.active_server.as_str(), server_id) {
                    self.active_server = String::from_str("System");
                    self.active_channel = String::from_str("Status");
                }
            }
        } else {
            if str_eqs(self.active_server.as_str(), server_id) {
                self.active_server = String::from_str("System");
                self.active_channel = String::from_str("Status");
            }
        }
        true
    }

    /// Forgets the named channel of the active server. The active target
    /// and a split view pointing at it fall back to the System server's
    /// Status channel.
    pub fn part_local(&mut self, channel: &str) -> (r: PartOutcome)
        requires
            wf(*old(self)),
        ensures
            wf(*final(self)),
            part_rel(*old(self), *final(self), channel@, r),
    {
        proof {
            reveal_strlit("System");
            reveal_strlit("Status");
        }
        if str_eqs(self.active_server.as_str(), "System") && str_eqs(channel, "Status") {
            return PartOutcome::Kept;
        }
        let si = match self.find_server(self.active_server.clone().as_str()) {
            Option::Some(si) => si,
            Option::None => {
                return PartOutcome::NoServer;
            },
        };
        proof {
            omap::lemma_key_idx(self.server_list@, self.active_server@);
        }
        let ghost old_app = *self;
        let srv = omap::val_mut(&mut self.server_list, si);
        let ghost old_srv = *srv;
        let removed = omap::remove_key(&mut srv.channels, channel);
        proof {
            omap::lemma_key_idx(old_srv.channels@, channel@);
            if removed {
                let ci = key_idx(old_srv.channels@, channel@)->Some_0;
                old_srv.channels@.remove_ensures(ci);
                assert forall|j: int| 0 <= j < srv.channels@.len() implies wf_channel(
                    #[trigger] srv.channels@[j].1,
                ) by {
                    if j < ci {
                        assert(srv.channels@[j] == old_srv.channels@[j]);
                    } else {
                        assert(srv.channels@[j] == old_srv.channels@[j + 1]);
                    }
                }
            }
            assert(wf_server(*srv));
        }
        proof {
            crate::state::lemma_wf_after_update(
                old_app.server_list@,
                self.server_list@,
                si as int,
            );
        }
        if !removed {
            proof {
                assert(self.server_list@ =~= old_app.server_list@);
            }
            return PartOutcome::NotJoined;
        }
        if self.split.0 {
            if str_eqs(self.active_channel.as_str(), channel) {
                self.split = (
                    true,
                    String::from_str("System"),
                    String::from_str("Status"),
                    self.split.3.clone(),
                    self.split.4.clone(),
                );
                self.active_server = String::from_str("System");
                self.active_channel = String::from_str("Status");
            } else if str_eqs(self.active_channel.as_str(), self.split.4.as_str()) {
                self.split = (
                    true,
                    self.split.1.clone(),
                    self.split.2.clone(),
                    String::from_str("System"),
                    String::from_str("Status"),
                );
                self.active_server = String::from_str("System");
                self.active_channel = String::from_str("Status");
            }
        } else {
            if str_eqs(self.active_channel.as_str(), channel) {
                self.active_server = String::from_str("System");
                self.active_channel = String::from_str("Status");
            }
        }
        PartOutcome::Removed
    }
}

} // verus!
