//! Protocol dispatch: each inbound command or numeric reply is one state
//! transition, applied by its own method with an exact contract.

use vstd::prelude::*;
use crate::omap;
use crate::omap::key_idx;
use crate::members;
use crate::members::merge_names;
use crate::members::drop_user;
use crate::members::add_absent;
use crate::text::str_eqs;
use crate::text::strip_priv;
use crate::text::first_token;
use crate::text::skip_ws_spec;
use crate::text::token_end_spec;
use crate::text::lemma_token_end_bounds;
use crate::text::skip_ws;
use crate::text::second_token;
use crate::text::first_match;
use crate::text::hash_tok;
use crate::text::actor_of;
use crate::text::views_of;
use crate::text::split_ws_seq;
use crate::text::idx_of_first;
use vstd::string::StringSliceAdditionalSpecFns;
use crate::state::App;
use crate::state::ChannelData;
use crate::state::ServerData;
use crate::state::wf;
use crate::state::wf_channel;
use crate::state::wf_server;
use crate::state::ui_eq;

verus! {

/// All servers except the one at `si` are unchanged, and that one keeps
/// its key.
pub open spec fn only_srv_changed(
    s0: Seq<(String, ServerData)>,
    s1: Seq<(String, ServerData)>,
    si: int,
) -> bool {
    &&& s1.len() == s0.len()
    &&& forall|j: int| 0 <= j < s0.len() && j != si ==> #[trigger] s1[j] == s0[j]
    &&& s1[si].0 == s0[si].0
}

/// All channels except the one at `ci` are unchanged, and that one keeps
/// its key.
pub open spec fn only_chan_changed(
    c0: Seq<(String, ChannelData)>,
    c1: Seq<(String, ChannelData)>,
    ci: int,
) -> bool {
    &&& c1.len() == c0.len()
    &&& forall|j: int| 0 <= j < c0.len() && j != ci ==> #[trigger] c1[j] == c0[j]
    &&& c1[ci].0 == c0[ci].0
}

/// One channel entry related to its old self by a departure: same name,
/// the user gone from membership, everything else untouched.
pub open spec fn quit_chan_rel(
    oc: (String, ChannelData),
    nc: (String, ChannelData),
    t: Seq<char>,
) -> bool {
    nc.0 == oc.0 && members_only(oc.1, nc.1, drop_user(oc.1.user_list@, t))
}

pub open spec fn names_rel(a: App, b: App, sid: Seq<char>, cid: Seq<char>, ns: Seq<String>) -> bool {
    &&& (ui_eq(a, b))
    &&& (match key_idx(a.server_list@, sid) {
                Option::None => b.server_list@ == a.server_list@,
                Option::Some(si) => {
                    match key_idx(a.server_list@[si].1.channels@, cid) {
                        Option::None => b.server_list@ == a.server_list@,
                        Option::Some(ci) => {
                            &&& only_srv_changed(
                                a.server_list@,
                                b.server_list@,
                                si,
                            )
                            &&& b.server_list@[si].1.nick == a.server_list@[si].1.nick
                            &&& only_chan_changed(
                                a.server_list@[si].1.channels@,
                                b.server_list@[si].1.channels@,
                                ci,
                            )
                            &&& members_only(
                                a.server_list@[si].1.channels@[ci].1,
                                b.server_list@[si].1.channels@[ci].1,
                                merge_names(
                                    a.server_list@[si].1.channels@[ci].1.user_list@,
                                    ns,
                                ),
                            )
                        },
                    }
                },
            })
}


pub open spec fn quit_rel(a: App, b: App, sid: Seq<char>, t: Seq<char>) -> bool {
    &&& (ui_eq(a, b))
    &&& (match key_idx(a.server_list@, sid) {
                Option::None => b.server_list@ == a.server_list@,
                Option::Some(si) => {
                    &&& only_srv_changed(a.server_list@, b.server_list@, si)
                    &&& b.server_list@[si].1.nick == a.server_list@[si].1.nick
                    &&& b.server_list@[si].1.channels@.len() == a.server_list@[si].1.channels@.len()
                    &&& forall|j: int|
                        0 <= j < a.server_list@[si].1.channels@.len()
                            ==> #[trigger] quit_chan_rel(
                            a.server_list@[si].1.channels@[j],
                            b.server_list@[si].1.channels@[j],
                            t,
                        )
                },
            })
}


pub open spec fn part_member_rel(a: App, b: App, sid: Seq<char>, cid: Seq<char>, t: Seq<char>) -> bool {
    &&& (ui_eq(a, b))
    &&& (match key_idx(a.server_list@, sid) {
                Option::None => b.server_list@ == a.server_list@,
                Option::Some(si) => {
                    match key_idx(a.server_list@[si].1.channels@, cid) {
                        Option::None => b.server_list@ == a.server_list@,
                        Option::Some(ci) => {
                            &&& only_srv_changed(
                                a.server_list@,
                                b.server_list@,
                                si,
                            )
                            &&& b.server_list@[si].1.nick == a.server_list@[si].1.nick
                            &&& only_chan_changed(
                                a.server_list@[si].1.channels@,
                                b.server_list@[si].1.channels@,
                                ci,
                            )
                            &&& members_only(
                                a.server_list@[si].1.channels@[ci].1,
                                b.server_list@[si].1.channels@[ci].1,
                                drop_user(
                                    a.server_list@[si].1.channels@[ci].1.user_list@,
                                    t,
                                ),
                            )
                        },
                    }
                },
            })
}


pub open spec fn nick_change_rel(a: App, b: App, sid: Seq<char>, o: Seq<char>, w: String, r: bool) -> bool {
    &&& (b.exit == a.exit && b.w == a.w && b.h
                == a.h && b.prompt == a.prompt && b.real == a.real && b.spark_data == a.spark_data && b.active_tab
                == a.active_tab && b.popup == a.popup && b.list_response == a.list_response && b.prompt_list == a.prompt_list && b.prompt_pos == a.prompt_pos && b.list_pos
                == a.list_pos && b.menu_pos == a.menu_pos && b.split == a.split && b.active_server == a.active_server
                && b.active_channel == a.active_channel)
    &&& (match key_idx(a.server_list@, sid) {
                Option::None => {
                    &&& !r
                    &&& b.server_list@ == a.server_list@
                    &&& b.active_nick == a.active_nick
                },
                Option::Some(si) => {
                    &&& r == (a.server_list@[si].1.nick@ == o)
                    &&& only_srv_changed(a.server_list@, b.server_list@, si)
                    &&& b.server_list@[si].1.nick == if r {
                        w
                    } else {
                        a.server_list@[si].1.nick
                    }
                    &&& b.active_nick == if r {
                        w
                    } else {
                        a.active_nick
                    }
                    &&& b.server_list@[si].1.channels@.len() == a.server_list@[si].1.channels@.len()
                    &&& forall|j: int|
                        0 <= j < a.server_list@[si].1.channels@.len()
                            ==> #[trigger] rename_chan_rel(
                            a.server_list@[si].1.channels@[j],
                            b.server_list@[si].1.channels@[j],
                            o,
                            w,
                        )
                },
            })
}


pub open spec fn collision_rel(a: App, b: App, sid: Seq<char>, r: Option<String>) -> bool {
    match key_idx(a.server_list@, sid) {
                Option::None => r is None && b == a,
                Option::Some(si) => {
                    &&& r matches Option::Some(n) && n@ == a.server_list@[si].1.nick@
                        + "_"@
                    &&& only_srv_changed(a.server_list@, b.server_list@, si)
                    &&& b.server_list@[si].1.nick@ == a.server_list@[si].1.nick@
                        + "_"@
                    &&& b.server_list@[si].1.channels == a.server_list@[si].1.channels
                    &&& b.active_nick == (if a.active_server@ == sid {
                        b.server_list@[si].1.nick
                    } else {
                        a.active_nick
                    })
                    &&& b.exit == a.exit && b.w == a.w
                        && b.h == a.h && b.prompt == a.prompt
                        && b.real == a.real && b.spark_data == a.spark_data && b.active_tab == a.active_tab && b.popup == a.popup && b.list_response == a.list_response && b.prompt_list == a.prompt_list && b.prompt_pos == a.prompt_pos && b.list_pos == a.list_pos && b.menu_pos == a.menu_pos && b.split
                        == a.split && b.active_server == a.active_server
                        && b.active_channel == a.active_channel
                },
            }
}


pub open spec fn join_rel(a: App, b: App, sid: Seq<char>, jn: String, ch: String) -> bool {
    &&& (b.exit == a.exit && b.w == a.w && b.h
                == a.h && b.prompt == a.prompt && b.real == a.real && b.spark_data == a.spark_data && b.active_tab
                == a.active_tab && b.popup == a.popup && b.list_response == a.list_response && b.prompt_list == a.prompt_list && b.prompt_pos == a.prompt_pos && b.list_pos
                == a.list_pos && b.menu_pos == a.menu_pos && b.active_nick == a.active_nick)
    &&& (match key_idx(a.server_list@, sid) {
                Option::None => {
                    &&& b.server_list@ == a.server_list@
                    &&& b.split == a.split
                    &&& b.active_server == a.active_server
                    &&& b.active_channel == a.active_channel
                },
                Option::Some(si) => {
                    if a.server_list@[si].1.nick@ == jn@ {
                        &&& b.active_server@ == sid
                        &&& b.active_channel == ch
                        &&& (if a.split.0 {
                            if a.active_channel@ == a.split.2@ {
                                &&& b.split.0 == true
                                &&& b.split.1@ == sid
                                &&& b.split.2 == ch
                                &&& b.split.3 == a.split.3
                                &&& b.split.4 == a.split.4
                            } else {
                                &&& b.split.0 == true
                                &&& b.split.1 == a.split.1
                                &&& b.split.2 == a.split.2
                                &&& b.split.3@ == sid
                                &&& b.split.4 == ch
                            }
                        } else {
                            b.split == a.split
                        })
                        &&& match key_idx(a.server_list@[si].1.channels@, ch@) {
                            Option::Some(ci) => b.server_list@ == a.server_list@,
                            Option::None => {
                                &&& only_srv_changed(
                                    a.server_list@,
                                    b.server_list@,
                                    si,
                                )
                                &&& b.server_list@[si].1.nick == a.server_list@[si].1.nick
                                &&& b.server_list@[si].1.channels@ == a.server_list@[si].1.channels@.insert(
                                    crate::omap::ins_pos(
                                        a.server_list@[si].1.channels@,
                                        ch@,
                                    ),
                                    b.server_list@[si].1.channels@[crate::omap::ins_pos(
                                        a.server_list@[si].1.channels@,
                                        ch@,
                                    )],
                                )
                                &&& b.server_list@[si].1.channels@[crate::omap::ins_pos(
                                    a.server_list@[si].1.channels@,
                                    ch@,
                                )].0 == ch
                                &&& ({
                                    let nc = b.server_list@[si].1.channels@[crate::omap::ins_pos(
                                        a.server_list@[si].1.channels@,
                                        ch@,
                                    )].1;
                                    &&& nc.chat_list@.len() == 1
                                    &&& nc.chat_list@[0].0@ == "System"@
                                    &&& nc.chat_list@[0].1@ == "Joining Channel"@
                                    &&& nc.user_list@.len() == 0
                                    &&& nc.chat_pos == 0
                                    &&& nc.notification == false
                                })
                            },
                        }
                    } else {
                        &&& b.split == a.split
                        &&& b.active_server == a.active_server
                        &&& b.active_channel == a.active_channel
                        &&& match key_idx(a.server_list@[si].1.channels@, ch@) {
                            Option::None => b.server_list@ == a.server_list@,
                            Option::Some(ci) => {
                                &&& only_srv_changed(
                                    a.server_list@,
                                    b.server_list@,
                                    si,
                                )
                                &&& b.server_list@[si].1.nick == a.server_list@[si].1.nick
                                &&& only_chan_changed(
                                    a.server_list@[si].1.channels@,
                                    b.server_list@[si].1.channels@,
                                    ci,
                                )
                                &&& members_only(
                                    a.server_list@[si].1.channels@[ci].1,
                                    b.server_list@[si].1.channels@[ci].1,
                                    add_absent(
                                        a.server_list@[si].1.channels@[ci].1.user_list@,
                                        jn,
                                    ),
                                )
                            },
                        }
                    }
                },
            })
}

/// One channel after a membership-only change: history, scroll and
/// notification state untouched.
pub open spec fn members_only(c0: ChannelData, c1: ChannelData, users: Seq<String>) -> bool {
    &&& c1.user_list@ == users
    &&& c1.chat_list == c0.chat_list
    &&& c1.chat_pos == c0.chat_pos
    &&& c1.notification == c0.notification
}

impl App {
    /// Merges a names-reply list into a channel's membership; names already
    /// present are not duplicated. Unknown server or channel: no change.
    pub fn apply_names(&mut self, server_id: &str, chan: &str, names: &Vec<String>)
        requires
            wf(*old(self)),
        ensures
            wf(*final(self)),
            names_rel(*old(self), *final(self), server_id@, chan@, names@),
    {
        let si = match self.find_server(server_id) {
            Option::Some(si) => si,
            Option::None => {
                return ;
            },
        };
        proof {
            omap::lemma_key_idx(self.server_list@, server_id@);
        }
        let ci = match omap::find_idx(&self.server_list[si].1.channels, chan) {
            Option::Some(ci) => ci,
            Option::None => {
                return ;
            },
        };
        proof {
            omap::lemma_key_idx(self.server_list@[si as int].1.channels@, chan@);
        }
        let ghost old_app = *self;
        let srv = omap::val_mut(&mut self.server_list, si);
        let ghost old_srv = *srv;
        let ch = omap::val_mut(&mut srv.channels, ci);
        members::merge_user_list(&mut ch.user_list, names);
        proof {
            crate::state::lemma_wf_server_after_update(
                old_srv.channels@,
                srv.channels@,
                ci as int,
            );
            assert(wf_server(*srv));
            crate::state::lemma_wf_after_update(
                old_app.server_list@,
                self.server_list@,
                si as int,
            );
        }
    }

    /// Removes a departing user from every channel of the server, privilege
    /// markers disregarded. Unknown server: no change.
    pub fn apply_quit(&mut self, server_id: &str, target: &str)
        requires
            wf(*old(self)),
        ensures
            wf(*final(self)),
            quit_rel(*old(self), *final(self), server_id@, target@),
    {
        let si = match self.find_server(server_id) {
            Option::Some(si) => si,
            Option::None => {
                return ;
            },
        };
        proof {
            omap::lemma_key_idx(self.server_list@, server_id@);
        }
        let ghost old_app = *self;
        let srv = omap::val_mut(&mut self.server_list, si);
        let ghost c0 = srv.channels@;
        let clen = srv.channels.len();
        let mut ci: usize = 0;
        while ci < clen
            invariant
                0 <= ci <= clen,
                clen == c0.len(),
                srv.channels@.len() == c0.len(),
                srv.nick == old_app.server_list@[si as int].1.nick,
                si < old_app.server_list@.len(),
                c0 == old_app.server_list@[si as int].1.channels@,
                forall|j: int| 0 <= j < ci ==> #[trigger] quit_chan_rel(c0[j], srv.channels@[j], target@),
                forall|j: int| ci <= j < clen ==> #[trigger] srv.channels@[j] == c0[j],
            decreases clen - ci,
        {
            let ch = omap::val_mut(&mut srv.channels, ci);
            members::remove_user(&mut ch.user_list, target);
            ci = ci + 1;
        }
        proof {
            assert forall|j: int| 0 <= j < c0.len() implies #[trigger] srv.channels@[j].0
                == c0[j].0 by {
                assert(quit_chan_rel(c0[j], srv.channels@[j], target@));
            }
            omap::lemma_sorted_same_keys(c0, srv.channels@);
            assert forall|j: int| 0 <= j < srv.channels@.len() implies wf_channel(
                #[trigger] srv.channels@[j].1,
            ) by {
                assert(quit_chan_rel(c0[j], srv.channels@[j], target@));
                assert(srv.channels@[j].1.chat_list == c0[j].1.chat_list);
            }
            assert(wf_server(*srv));
            crate::state::lemma_wf_after_update(
                old_app.server_list@,
                self.server_list@,
                si as int,
            );
        }
    }

    /// Removes a parting user from one channel's membership, privilege
    /// markers disregarded. Unknown server or channel: no change.
    pub fn apply_part_member(&mut self, server_id: &str, chan: &str, target: &str)
        requires
            wf(*old(self)),
        ensures
            wf(*final(self)),
            part_member_rel(*old(self), *final(self), server_id@, chan@, target@),
    {
        let si = match self.find_server(server_id) {
            Option::Some(si) => si,
            Option::None => {
                return ;
            },
        };
        proof {
            omap::lemma_key_idx(self.server_list@, server_id@);
        }
        let ci = match omap::find_idx(&self.server_list[si].1.channels, chan) {
            Option::Some(ci) => ci,
            Option::None => {
                return ;
            },
        };
        proof {
            omap::lemma_key_idx(self.server_list@[si as int].1.channels@, chan@);
        }
        let ghost old_app = *self;
        let srv = omap::val_mut(&mut self.server_list, si);
        let ghost old_srv = *srv;
        let ch = omap::val_mut(&mut srv.channels, ci);
        members::remove_user(&mut ch.user_list, target);
        proof {
            crate::state::lemma_wf_server_after_update(
                old_srv.channels@,
                srv.channels@,
                ci as int,
            );
            assert(wf_server(*srv));
            crate::state::lemma_wf_after_update(
                old_app.server_list@,
                self.server_list@,
                si as int,
            );
        }
    }
}

/// One channel entry related to its old self by a rename: same name, each
/// member whose stripped form read `from` now reads `to`.
pub open spec fn rename_chan_rel(
    oc: (String, ChannelData),
    nc: (String, ChannelData),
    from: Seq<char>,
    to: String,
) -> bool {
    &&& nc.0 == oc.0
    &&& nc.1.user_list@.len() == oc.1.user_list@.len()
    &&& forall|i: int|
        0 <= i < oc.1.user_list@.len() ==> #[trigger] nc.1.user_list@[i] == if strip_priv(
            oc.1.user_list@[i]@,
        ) == from {
            to
        } else {
            oc.1.user_list@[i]
        }
    &&& nc.1.chat_list == oc.1.chat_list
    &&& nc.1.chat_pos == oc.1.chat_pos
    &&& nc.1.notification == oc.1.notification
}

impl App {
    /// Applies a nickname change: when the old name is this session's own
    /// registered nickname, the session and active nicknames follow; in
    /// every channel the old name is rewritten to the new one. Returns
    /// whether the session's own nickname changed.
    pub fn apply_nick_change(&mut self, server_id: &str, user_old: &str, new_user: &String) -> (r:
        bool)
        requires
            wf(*old(self)),
        ensures
            wf(*final(self)),
            nick_change_rel(*old(self), *final(self), server_id@, user_old@, *new_user, r),
    {
        let si = match self.find_server(server_id) {
            Option::Some(si) => si,
            Option::None => {
                return false;
            },
        };
        proof {
            omap::lemma_key_idx(self.server_list@, server_id@);
        }
        let ghost old_app = *self;
        let became_self = str_eqs(self.server_list[si].1.nick.as_str(), user_old);
        if became_self {
            let srv = omap::val_mut(&mut self.server_list, si);
            srv.nick = new_user.clone();
            self.active_nick = new_user.clone();
            proof {
                crate::state::lemma_wf_after_update(
                    old_app.server_list@,
                    self.server_list@,
                    si as int,
                );
            }
        }
        let ghost mid_app = *self;
        let srv = omap::val_mut(&mut self.server_list, si);
        let ghost c0 = srv.channels@;
        let clen = srv.channels.len();
        let mut ci: usize = 0;
        while ci < clen
            invariant
                0 <= ci <= clen,
                clen == c0.len(),
                srv.channels@.len() == c0.len(),
                srv.nick == mid_app.server_list@[si as int].1.nick,
                si < mid_app.server_list@.len(),
                c0 == mid_app.server_list@[si as int].1.channels@,
                forall|j: int|
                    0 <= j < ci ==> #[trigger] rename_chan_rel(
                        c0[j],
                        srv.channels@[j],
                        user_old@,
                        *new_user,
                    ),
                forall|j: int| ci <= j < clen ==> #[trigger] srv.channels@[j] == c0[j],
            decreases clen - ci,
        {
            let ch = omap::val_mut(&mut srv.channels, ci);
            members::rename_user(&mut ch.user_list, user_old, new_user);
            ci = ci + 1;
        }
        proof {
            assert forall|j: int| 0 <= j < c0.len() implies #[trigger] srv.channels@[j].0
                == c0[j].0 by {
                assert(rename_chan_rel(c0[j], srv.channels@[j], user_old@, *new_user));
            }
            omap::lemma_sorted_same_keys(c0, srv.channels@);
            assert forall|j: int| 0 <= j < srv.channels@.len() implies wf_channel(
                #[trigger] srv.channels@[j].1,
            ) by {
                assert(rename_chan_rel(c0[j], srv.channels@[j], user_old@, *new_user));
                assert(srv.channels@[j].1.chat_list == c0[j].1.chat_list);
            }
            assert(wf_server(*srv));
            crate::state::lemma_wf_after_update(
                mid_app.server_list@,
                self.server_list@,
                si as int,
            );
        }
        became_self
    }

    /// Resolves a nickname collision: an underscore is appended to the
    /// session's registered nickname, the active nickname follows, and the
    /// corrected name is returned so a rename can be sent back.
    pub fn apply_nick_collision(&mut self, server_id: &str) -> (r: Option<String>)
        requires
            wf(*old(self)),
        ensures
            wf(*final(self)),
            collision_rel(*old(self), *final(self), server_id@, r),
    {
        let si = match self.find_server(server_id) {
            Option::Some(si) => si,
            Option::None => {
                return Option::None;
            },
        };
        proof {
            omap::lemma_key_idx(self.server_list@, server_id@);
        }
        let ghost old_app = *self;
        // the cached active nickname follows only when this server is the
        // active target
        let is_active = str_eqs(self.active_server.as_str(), server_id);
        let srv = omap::val_mut(&mut self.server_list, si);
        let corrected = srv.nick.clone().concat("_");
        srv.nick = corrected.clone();
        if is_active {
            self.active_nick = corrected.clone();
        }
        proof {
            crate::state::lemma_wf_after_update(
                old_app.server_list@,
                self.server_list@,
                si as int,
            );
        }
        Option::Some(corrected)
    }

    /// Applies a join. The session's own join opens the channel if absent
    /// and moves the active target (and the focused split side) onto it;
    /// anyone else's join only adds them to the membership, once.
    pub fn apply_join(&mut self, server_id: &str, joiner: &String, chan: &String)
        requires
            wf(*old(self)),
        ensures
            wf(*final(self)),
            join_rel(*old(self), *final(self), server_id@, *joiner, *chan),
    {
        let si = match self.find_server(server_id) {
            Option::Some(si) => si,
            Option::None => {
                return ;
            },
        };
        proof {
            omap::lemma_key_idx(self.server_list@, server_id@);
        }
        let ghost old_app = *self;
        let own = str_eqs(self.server_list[si].1.nick.as_str(), joiner.as_str());
        if own {
            match omap::find_idx(&self.server_list[si].1.channels, chan.as_str()) {
                Option::Some(_) => {},
                Option::None => {
                    let fresh = ChannelData::with_line(
                        String::from_str("System"),
                        String::from_str("Joining Channel"),
                    );
                    let ghost gfresh = fresh;
                    proof {
                        omap::lemma_ins_pos(old_app.server_list@[si as int].1.channels@, chan@);
                    }
                    let srv = omap::val_mut(&mut self.server_list, si);
                    let ghost old_srv = *srv;
                    omap::insert_sorted(&mut srv.channels, chan.clone(), fresh);
                    proof {
                        let p = crate::omap::ins_pos(old_srv.channels@, chan@);
                        old_srv.channels@.insert_ensures(p, (srv.channels@[p].0, gfresh));
                        assert(srv.channels@[p].1 == gfresh);
                        assert forall|j: int| 0 <= j < srv.channels@.len() implies wf_channel(
                            #[trigger] srv.channels@[j].1,
                        ) by {
                            if j < p {
                                assert(srv.channels@[j] == old_srv.channels@[j]);
                            } else if j > p {
                                assert(srv.channels@[j] == old_srv.channels@[j - 1]);
                            }
                        }
                        assert(wf_server(*srv));
                        crate::state::lemma_wf_after_update(
                            old_app.server_list@,
                            self.server_list@,
                            si as int,
                        );
                    }
                },
            }
            if self.split.0 {
                if str_eqs(self.active_channel.as_str(), self.split.2.as_str()) {
                    self.split = (
                        true,
                        String::from_str(server_id),
                        chan.clone(),
                        self.split.3.clone(),
                        self.split.4.clone(),
                    );
                } else {
                    self.split = (
                        true,
                        self.split.1.clone(),
                        self.split.2.clone(),
                        String::from_str(server_id),
                        chan.clone(),
                    );
                }
            }
            self.active_channel = chan.clone();
            self.active_server = String::from_str(server_id);
        } else {
            let ci = match omap::find_idx(&self.server_list[si].1.channels, chan.as_str()) {
                Option::Some(ci) => ci,
                Option::None => {
                    return ;
                },
            };
            proof {
                omap::lemma_key_idx(self.server_list@[si as int].1.channels@, chan@);
            }
            let srv = omap::val_mut(&mut self.server_list, si);
            let ghost old_srv = *srv;
            let ch = omap::val_mut(&mut srv.channels, ci);
            members::add_user(&mut ch.user_list, joiner.clone());
            proof {
                crate::state::lemma_wf_server_after_update(
                    old_srv.channels@,
                    srv.channels@,
                    ci as int,
                );
                assert(wf_server(*srv));
                crate::state::lemma_wf_after_update(
                    old_app.server_list@,
                    self.server_list@,
                    si as int,
                );
            }
        }
    }
}


/// The line's bytes shown as sparkline samples; nothing else changes.
pub open spec fn spark_rel(a: App, b: App, l: Seq<char>) -> bool {
    &&& b == (App { spark_data: b.spark_data, ..a })
    &&& b.spark_data@ == bytes_as_u64(vstd::utf8::encode_utf8(l))
}

/// The text of the line after its command token (the whole line when the
/// token is not found).
pub open spec fn cmd_text(l: Seq<char>) -> Seq<char> {
    match first_match(l, second_token(l)) {
        Option::Some(p) => l.skip(p + second_token(l).len()),
        Option::None => l,
    }
}

/// The Status-channel quotation of a raw line: its first token, a space,
/// and the remainder after the command text's first character.
pub open spec fn status_line(l: Seq<char>) -> Seq<char> {
    first_token(l) + " "@ + (if cmd_text(l).len() >= 1 {
        cmd_text(l).skip(1)
    } else {
        Seq::<char>::empty()
    })
}

/// The raw line quoted into the named server's Status channel, attributed
/// to its command token.
pub open spec fn status_quote_rel(a: App, b: App, server_id: String, l: Seq<char>) -> bool {
    exists|cv: String, nv: String, dv: String|
        #[trigger] crate::state::app_append_rel(a, b, server_id, cv, nv, dv) && cv@ == "Status"@
            && nv@ == second_token(l) && dv@ == status_line(l)
}

/// The self-notice appended to the active channel on an own rename.
pub open spec fn self_notice_rel(a: App, b: App, server_id: String, l: Seq<char>) -> bool {
    exists|cv: String, nv: String, dv: String|
        #[trigger] crate::state::app_append_rel(a, b, server_id, cv, nv, dv) && cv
            == a.active_channel && nv@ == second_token(l) && dv@ == "You're now known as "@
            + a.active_nick@
}

/// The new nickname a rename line carries.
pub open spec fn nick_new_text(l: Seq<char>) -> Seq<char> {
    match first_match(l, "NICK :"@) {
        Option::Some(p) => l.skip(p + 6),
        Option::None => if l.len() >= 6 {
            l.skip(6)
        } else {
            Seq::<char>::empty()
        },
    }
}

/// The space-separated names list of a names reply: the trailer after the
/// first `:` of the command text.
pub open spec fn names_text(l: Seq<char>) -> Seq<char> {
    let c = cmd_text(l);
    match idx_of_first(c, ':') {
        Option::Some(p) => c.skip(p + 1),
        Option::None => if c.len() >= 1 {
            c.skip(1)
        } else {
            c
        },
    }
}

/// A departure line: sparkline, then the member removed from every channel
/// of the tagged server, then the quotation in its Status channel.
pub open spec fn quit_line_rel(a: App, b: App, server_id: String, l: Seq<char>) -> bool {
    exists|m1: App|
        #[trigger] spark_rel(a, m1, l) && exists|m2: App|
            #[trigger] quit_rel(m1, m2, server_id@, strip_priv(actor_of(l))) && status_quote_rel(
                m2,
                b,
                server_id,
                l,
            )
}

/// A part line: the member leaves the named channel, then the quotation.
pub open spec fn part_line_rel(a: App, b: App, server_id: String, l: Seq<char>) -> bool {
    exists|m1: App|
        #[trigger] spark_rel(a, m1, l) && exists|m2: App|
            #[trigger] part_member_rel(
                m1,
                m2,
                server_id@,
                first_token(cmd_text(l)),
                actor_of(l),
            ) && status_quote_rel(m2, b, server_id, l)
}

/// The rename transition, the self-notice on an own rename, and the
/// quotation, starting from the state after the sparkline update.
pub open spec fn nick_steps_rel(m1: App, b: App, server_id: String, l: Seq<char>) -> bool {
    exists|m2: App, nu: String, r: bool|
        #[trigger] nick_change_rel(m1, m2, server_id@, actor_of(l), nu, r) && nu@
            == nick_new_text(l) && (if r {
            exists|m3: App|
                #[trigger] self_notice_rel(m2, m3, server_id, l) && status_quote_rel(
                    m3,
                    b,
                    server_id,
                    l,
                )
        } else {
            status_quote_rel(m2, b, server_id, l)
        })
}

/// A rename line: membership rewritten (and, for an own rename, the
/// session nickname and a self-notice), then the quotation.
pub open spec fn nick_line_rel(a: App, b: App, server_id: String, l: Seq<char>) -> bool {
    exists|m1: App| #[trigger] spark_rel(a, m1, l) && nick_steps_rel(m1, b, server_id, l)
}

/// The join transition applied with the actor and channel the line names.
pub open spec fn join_after(m1: App, m2: App, server_id: String, c: Seq<char>, l: Seq<char>) -> bool {
    exists|jn: String, ch: String|
        #[trigger] join_rel(m1, m2, server_id@, jn, ch) && jn@ == actor_of(l) && ch@ == c
}

/// The join transition and the quotation, starting from the state after
/// the sparkline update.
pub open spec fn join_steps_rel(m1: App, b: App, server_id: String, l: Seq<char>) -> bool {
    exists|m2: App|
        #[trigger] status_quote_rel(m2, b, server_id, l) && (match hash_tok(l) {
            Option::Some(c) => join_after(m1, m2, server_id, c, l),
            Option::None => m2 == m1,
        })
}

/// A join line: the join applied to the first `#`-prefixed channel name
/// (nothing without one), then the quotation.
pub open spec fn join_line_rel(a: App, b: App, server_id: String, l: Seq<char>) -> bool {
    exists|m1: App| #[trigger] spark_rel(a, m1, l) && join_steps_rel(m1, b, server_id, l)
}

/// A collision reply: the session nickname corrected, the fixing rename
/// sent back, then the quotation.
pub open spec fn collision_line_rel(
    a: App,
    b: App,
    server_id: String,
    l: Seq<char>,
    fx: Seq<Effect>,
) -> bool {
    exists|m1: App|
        #[trigger] spark_rel(a, m1, l) && exists|m2: App, r: Option<String>|
            #[trigger] collision_rel(m1, m2, server_id@, r) && status_quote_rel(
                m2,
                b,
                server_id,
                l,
            ) && (match r {
                Option::Some(n) => sent_nick_fix(fx, server_id, n),
                Option::None => true,
            })
}

/// Some effect carries the corrective rename back to the server.
pub open spec fn sent_nick_fix(fx: Seq<Effect>, server_id: String, n: String) -> bool {
    exists|k: int|
        0 <= k < fx.len() && ((#[trigger] fx[k]) matches Effect::Send { server, line: ol }
            && server == server_id && ol@ == "NICK "@ + n@)
}

/// The listed names, read off the line, merged into channel `c`.
pub open spec fn names_after(m1: App, b: App, server_id: String, c: Seq<char>, l: Seq<char>) -> bool {
    exists|ns: Seq<String>|
        #[trigger] names_rel(m1, b, server_id@, c, ns) && views_of(ns) == split_ws_seq(
            names_text(l),
        )
}

/// A names reply: the listed names merged, once each, into the named
/// channel's membership (nothing without a `#`-prefixed channel name).
pub open spec fn names_line_rel(a: App, b: App, server_id: String, l: Seq<char>) -> bool {
    exists|m1: App|
        #[trigger] spark_rel(a, m1, l) && (match hash_tok(cmd_text(l)) {
            Option::Some(c) => names_after(m1, b, server_id, c, l),
            Option::None => b == m1,
        })
}

/// A chat line: appended to the `#`-prefixed target channel, or, for a
/// private message, to the channel keyed by the sender and mirrored into
/// the active channel when that differs.
pub open spec fn privmsg_line_rel(a: App, b: App, server_id: String, l: Seq<char>) -> bool {
    exists|m1: App|
        #[trigger] spark_rel(a, m1, l) && (match (first_match(l, "PRIVMSG "@), first_match(
            l,
            " :"@,
        )) {
            (Option::Some(mp), Option::Some(em)) => {
                if mp + 8 <= em {
                    if l.subrange(mp + 8, em).len() >= 1 && l.subrange(mp + 8, em)[0] == '#' {
                        privmsg_chan_case(m1, b, server_id, l, mp, em)
                    } else {
                        privmsg_priv_case(m1, b, server_id, l, mp, em)
                    }
                } else {
                    b == m1
                }
            },
            _ => b == m1,
        })
}

/// A channel-targeted message appended under its sender's name.
pub open spec fn privmsg_chan_case(
    m1: App,
    b: App,
    server_id: String,
    l: Seq<char>,
    mp: int,
    em: int,
) -> bool {
    exists|cv: String, nv: String, dv: String|
        #[trigger] crate::state::app_append_rel(m1, b, server_id, cv, nv, dv) && cv@ == l.subrange(
            mp + 8,
            em,
        ) && nv@ == actor_of(l) && dv@ == l.skip(em + 2)
}

/// A private message: appended to the channel keyed by the sender, and
/// mirrored into the active channel when that differs.
pub open spec fn privmsg_priv_case(
    m1: App,
    b: App,
    server_id: String,
    l: Seq<char>,
    mp: int,
    em: int,
) -> bool {
    exists|m2: App, nk: String, dv: String|
        #[trigger] crate::state::app_append_rel(m1, m2, server_id, nk, nk, dv) && nk@ == actor_of(
            l,
        ) && dv@ == l.subrange(mp + 8, em) + "-> "@ + l.skip(em + 2) && (if m1.active_channel@
            != actor_of(l) {
            exists|cv2: String|
                #[trigger] crate::state::app_append_rel(m2, b, server_id, cv2, nk, dv) && cv2
                    == m1.active_channel
        } else {
            b == m2
        })
}

/// Entries whose key is not `sid` are kept, with every key in place.
pub open spec fn others_kept(
    s0: Seq<(String, ServerData)>,
    s1: Seq<(String, ServerData)>,
    sid: Seq<char>,
) -> bool {
    &&& s1.len() == s0.len()
    &&& forall|j: int| 0 <= j < s0.len() ==> (#[trigger] s1[j]).0 == s0[j].0
    &&& forall|j: int| 0 <= j < s0.len() && (#[trigger] s0[j]).0@ != sid ==> s1[j] == s0[j]
}

/// A line tagged with one server never mutates another server's session,
/// never touches the exit flag, and every effect it produces speaks to the
/// tagged server itself.
pub open spec fn line_frame_rel(
    a: App,
    b: App,
    server_id: String,
    l: Seq<char>,
    fx: Seq<Effect>,
) -> bool {
    &&& b.exit == a.exit
    &&& others_kept(a.server_list@, b.server_list@, server_id@)
    &&& forall|k: int|
        0 <= k < fx.len() ==> ((#[trigger] fx[k]) matches Effect::Send { server, line: ol }
            && server == server_id) || (fx[k] matches Effect::AutoJoin { server } && server
            == server_id)
}

/// A step that changes at most the session keyed `sid` keeps the others.
pub proof fn lemma_others_kept_of_match(
    s0: Seq<(String, ServerData)>,
    s1: Seq<(String, ServerData)>,
    sid: Seq<char>,
)
    requires
        match key_idx(s0, sid) {
            Option::None => s1 == s0,
            Option::Some(si) => only_srv_changed(s0, s1, si),
        },
    ensures
        others_kept(s0, s1, sid),
{
    omap::lemma_key_idx(s0, sid);
    match key_idx(s0, sid) {
        Option::None => {},
        Option::Some(si) => {
            assert forall|j: int| 0 <= j < s0.len() implies (#[trigger] s1[j]).0 == s0[j].0 by {
                if j != si {
                    assert(s1[j] == s0[j]);
                }
            }
            assert forall|j: int| 0 <= j < s0.len() && (#[trigger] s0[j]).0@ != sid implies s1[j]
                == s0[j] by {
                assert(s0[si].0@ == sid);
            }
        },
    }
}

/// Keeping the other sessions composes.
pub proof fn lemma_others_kept_trans(
    s0: Seq<(String, ServerData)>,
    s1: Seq<(String, ServerData)>,
    s2: Seq<(String, ServerData)>,
    sid: Seq<char>,
)
    requires
        others_kept(s0, s1, sid),
        others_kept(s1, s2, sid),
    ensures
        others_kept(s0, s2, sid),
{
    assert forall|j: int| 0 <= j < s0.len() && (#[trigger] s0[j]).0@ != sid implies s2[j]
        == s0[j] by {
        assert(s1[j] == s0[j]);
        assert(s1[j].0@ != sid);
    }
}


/// An outbound line produced by a `PING`: the command token replaced by
/// `PONG`, everything else kept.
pub open spec fn pong_of(s: Seq<char>) -> Seq<char> {
    let a = skip_ws_spec(s, 0);
    s.take(a) + "PONG"@ + s.skip(a + 4)
}

/// The command and numeric-reply tokens the dispatcher reacts to.
pub open spec fn is_core_token(t: Seq<char>) -> bool {
    ||| t == "001"@
    ||| t == "NOTICE"@
    ||| t == "366"@
    ||| t == "322"@
    ||| t == "331"@
    ||| t == "332"@
    ||| t == "433"@
    ||| t == "QUIT"@
    ||| t == "PART"@
    ||| t == "NICK"@
    ||| t == "JOIN"@
    ||| t == "353"@
    ||| t == "PRIVMSG"@
}

/// A byte sequence widened to sparkline samples.
pub open spec fn bytes_as_u64(bs: Seq<u8>) -> Seq<u64> {
    bs.map_values(|b: u8| b as u64)
}

/// C0 or C1 control character.
pub open spec fn is_ctl(c: char) -> bool {
    ((c as u32) < 32) || (127 <= c as u32 && c as u32 <= 159)
}

/// `s` with every control character removed.
pub open spec fn strip_ctl(s: Seq<char>) -> Seq<char>
    decreases s.len(),
{
    if s.len() == 0 {
        s
    } else if is_ctl(s[0]) {
        strip_ctl(s.drop_first())
    } else {
        seq![s[0]] + strip_ctl(s.drop_first())
    }
}

/// Removes control characters, as `strip_ctl` describes.
pub fn strip_controls(s: &str) -> (r: String)
    ensures
        r@ == strip_ctl(s@),
    decreases s@.len(),
{
    let len = s.unicode_len();
    if len == 0 {
        let e = String::new();
        proof {
            assert(e@ =~= s@);
        }
        return e;
    }
    let c0 = s.get_char(0);
    let u = c0 as u32;
    let rest = s.substring_char(1, len);
    proof {
        assert(rest@ =~= s@.drop_first());
    }
    let tail = strip_controls(rest);
    if u < 32 || (127 <= u && u <= 159) {
        tail
    } else {
        let mut out = String::new();
        crate::escape::push_char(&mut out, c0);
        out.append(tail.as_str());
        proof {
            assert(out@ =~= seq![s@[0]] + strip_ctl(s@.drop_first()));
        }
        out
    }
}

/// The tail of a raw line quoted into the Status channel: the prefix, one
/// space, and the remainder after the command token's first character.
fn status_text(prefix: &str, command: &str) -> (r: String)
    ensures
        r@ == prefix@ + " "@ + (if command@.len() >= 1 {
            command@.skip(1)
        } else {
            Seq::<char>::empty()
        }),
{
    let clen = command.unicode_len();
    let tail = if clen >= 1 {
        command.substring_char(1, clen)
    } else {
        command.substring_char(0, clen)
    };
    proof {
        if clen >= 1 {
            assert(tail@ =~= command@.skip(1));
        } else {
            assert(tail@ =~= Seq::<char>::empty());
        }
    }
    String::from_str(prefix).concat(" ").concat(tail)
}

/// One inbound transport event, tagged by the connection manager.
pub enum NetEvent {
    Line(String),
    Error(String),
}

/// What the session asks its surroundings to do: everything that leaves
/// the verified state model goes through one of these.
#[derive(Debug, PartialEq)]
pub enum Effect {
    Send { server: String, line: String },
    AutoJoin { server: String },
    Connect { server: String, addr: String },
    TwitchConnect,
    Disconnect { server: String },
    DisconnectAll,
    LoadAutojoin,
}

impl App {
    /// Replaces the sparkline samples with the line's bytes.
    fn set_spark(&mut self, line: &str)
        ensures
            *final(self) == (App { spark_data: final(self).spark_data, ..*old(self) }),
            final(self).spark_data@ == bytes_as_u64(line.spec_bytes()),
    {
        let bv = line.as_bytes_vec();
        let blen = bv.len();
        let mut out: Vec<u64> = Vec::new();
        let mut i: usize = 0;
        while i < blen
            invariant
                0 <= i <= blen,
                blen == bv@.len(),
                out@.len() == i,
                forall|j: int| 0 <= j < i ==> #[trigger] out@[j] == bv@[j] as u64,
            decreases blen - i,
        {
            out.push(bv[i] as u64);
            i = i + 1;
        }
        proof {
            assert(out@ =~= bytes_as_u64(bv@));
        }
        self.spark_data = out;
    }

    /// Builds the reply to a `PING`: the same line with the command token
    /// replaced by `PONG`.
    pub fn pong_line(line: &str) -> (r: String)
        requires
            first_token(line@) == "PING"@,
        ensures
            r@ == pong_of(line@),
    {
        let len = line.unicode_len();
        let a = skip_ws(line, 0, len);
        proof {
            reveal_strlit("PING");
            lemma_token_end_bounds(line@, a as int);
            let te = token_end_spec(line@, a as int);
            assert(first_token(line@) == line@.subrange(a as int, te));
            assert(line@.subrange(a as int, te).len() == te - a as int);
            assert(("PING"@).len() == 4);
            assert(te - a as int == 4);
        }
        let head = crate::text::substr(line, 0, a);
        let rest = line.substring_char(a + 4, len);
        proof {
            assert(rest@ =~= line@.skip(a as int + 4));
        }
        head.concat("PONG").concat(rest)
    }

    /// Quotes a raw line into the named server's Status channel,
    /// attributed to its command token.
    fn quote_status(
        &mut self,
        server_id: &String,
        prefix: &String,
        command: &String,
        arg: &String,
        Ghost(l): Ghost<Seq<char>>,
    )
        requires
            wf(*old(self)),
            prefix@ == first_token(l),
            command@ == cmd_text(l),
            arg@ == second_token(l),
        ensures
            wf(*final(self)),
            status_quote_rel(*old(self), *final(self), *server_id, l),
            final(self).exit == old(self).exit,
            others_kept(old(self).server_list@, final(self).server_list@, server_id@),
    {
        let st = status_text(prefix.as_str(), command.as_str());
        let cvs = String::from_str("Status");
        self.chat_bounds(st.clone(), server_id.clone(), cvs.clone(), arg.clone());
        proof {
            assert(crate::state::app_append_rel(*old(self), *self, *server_id, cvs, *arg, st));
            assert(st@ == status_line(l));
            assert(status_quote_rel(*old(self), *self, *server_id, l));
            assert(match key_idx(old(self).server_list@, server_id@) {
                Option::None => self.server_list@ == old(self).server_list@,
                Option::Some(si) => only_srv_changed(
                    old(self).server_list@,
                    self.server_list@,
                    si,
                ),
            });
            lemma_others_kept_of_match(old(self).server_list@, self.server_list@, server_id@);
        }
    }

    /// Applies one rename line: the rename transition, the self-notice on
    /// an own rename, and the Status quotation.
    fn on_nick(
        &mut self,
        server_id: &String,
        prefix: &String,
        command: &String,
        arg: &String,
        line: &String,
    )
        requires
            wf(*old(self)),
            prefix@ == first_token(line@),
            command@ == cmd_text(line@),
            arg@ == second_token(line@),
        ensures
            wf(*final(self)),
            nick_steps_rel(*old(self), *final(self), *server_id, line@),
            others_kept(old(self).server_list@, final(self).server_list@, server_id@),
            final(self).exit == old(self).exit,
    {
        let len = line.as_str().unicode_len();
        let user_old = crate::text::actor_name(line.as_str());
        let new_user = match crate::text::find_sub(line.as_str(), "NICK :") {
            Option::Some(p) => {
                proof {
                    reveal_strlit("NICK :");
                }
                let t = crate::text::substr(line.as_str(), p + 6, len);
                proof {
                    assert(t@ =~= line@.skip(p + 6));
                }
                t
            },
            Option::None => {
                if len >= 6 {
                    let t = crate::text::substr(line.as_str(), 6, len);
                    proof {
                        assert(t@ =~= line@.skip(6));
                    }
                    t
                } else {
                    String::new()
                }
            },
        };
        let ghost gnu = new_user;
        let became = self.apply_nick_change(server_id.as_str(), user_old.as_str(), &new_user);
        let ghost m2 = *self;
        proof {
            assert(nick_change_rel(*old(self), m2, server_id@, actor_of(line@), gnu, became));
            assert(match key_idx(old(self).server_list@, server_id@) {
                Option::None => m2.server_list@ == old(self).server_list@,
                Option::Some(si) => only_srv_changed(
                    old(self).server_list@,
                    m2.server_list@,
                    si,
                ),
            });
            lemma_others_kept_of_match(old(self).server_list@, m2.server_list@, server_id@);
        }
        if became {
            let notice = String::from_str("You're now known as ").concat(
                self.active_nick.as_str(),
            );
            let cid = self.active_channel.clone();
            self.chat_bounds(notice.clone(), server_id.clone(), cid.clone(), arg.clone());
            proof {
                assert(crate::state::app_append_rel(m2, *self, *server_id, cid, *arg, notice));
                assert(self_notice_rel(m2, *self, *server_id, line@));
                assert(match key_idx(m2.server_list@, server_id@) {
                    Option::None => self.server_list@ == m2.server_list@,
                    Option::Some(si) => only_srv_changed(m2.server_list@, self.server_list@, si),
                });
                lemma_others_kept_of_match(m2.server_list@, self.server_list@, server_id@);
                lemma_others_kept_trans(
                    old(self).server_list@,
                    m2.server_list@,
                    self.server_list@,
                    server_id@,
                );
            }
        }
        let ghost m3 = *self;
        self.quote_status(server_id, prefix, command, arg, Ghost(line@));
        proof {
            assert(nick_steps_rel(*old(self), *self, *server_id, line@));
            lemma_others_kept_trans(
                old(self).server_list@,
                m3.server_list@,
                self.server_list@,
                server_id@,
            );
        }
    }

    /// Applies one join line: the join transition for the named channel
    /// and the Status quotation.
    fn on_join(
        &mut self,
        server_id: &String,
        prefix: &String,
        command: &String,
        arg: &String,
        line: &String,
    )
        requires
            wf(*old(self)),
            prefix@ == first_token(line@),
            command@ == cmd_text(line@),
            arg@ == second_token(line@),
        ensures
            wf(*final(self)),
            join_steps_rel(*old(self), *final(self), *server_id, line@),
            others_kept(old(self).server_list@, final(self).server_list@, server_id@),
            final(self).exit == old(self).exit,
    {
        let actor = crate::text::actor_name(line.as_str());
        match crate::text::hash_token(line.as_str()) {
            Option::Some(chan) => {
                self.apply_join(server_id.as_str(), &actor, &chan);
                proof {
                    assert(join_rel(*old(self), *self, server_id@, actor, chan));
                    assert(join_after(*old(self), *self, *server_id, chan@, line@));
                }
            },
            Option::None => {},
        }
        let ghost m2 = *self;
        self.quote_status(server_id, prefix, command, arg, Ghost(line@));
        proof {
            assert(join_steps_rel(*old(self), *self, *server_id, line@));
            assert(match key_idx(old(self).server_list@, server_id@) {
                Option::None => m2.server_list@ == old(self).server_list@,
                Option::Some(si) => only_srv_changed(
                    old(self).server_list@,
                    m2.server_list@,
                    si,
                ),
            });
            lemma_others_kept_of_match(old(self).server_list@, m2.server_list@, server_id@);
            lemma_others_kept_trans(
                old(self).server_list@,
                m2.server_list@,
                self.server_list@,
                server_id@,
            );
        }
    }

    /// Classifies one inbound event and applies its state transition; the
    /// returned effects are the outbound lines and connection requests the
    /// caller must perform. Every recognised command or numeric token is
    /// tied to its exact transition; a line never touches another server's
    /// session, and every effect speaks to the tagged server.
    #[verifier::rlimit(100)]
    pub fn handle_net_msg(&mut self, server_id: String, event: NetEvent) -> (fx: Vec<Effect>)
        requires
            wf(*old(self)),
        ensures
            wf(*final(self)),
            match event {
                NetEvent::Error(e) => fx@.len() == 0 && (exists|n: String|
                    #[trigger] crate::state::app_append_rel(
                        *old(self),
                        *final(self),
                        old(self).active_server,
                        old(self).active_channel,
                        n,
                        e,
                    ) && n@ == "Error"@),
                NetEvent::Line(l) => {
                    &&& (first_token(l@) == "PING"@ ==> fx@.len() >= 1 && (fx@[0] matches
                        Effect::Send { server, line } && server == server_id && line@ == pong_of(
                        l@,
                    )))
                    &&& (first_token(l@) == "PING"@ && !is_core_token(second_token(l@)) && (
                    l@.len() == 0 || l@[0] != ':') ==> fx@.len() == 1 && final(self).server_list
                        == old(self).server_list && *final(self) == (App {
                        spark_data: final(self).spark_data,
                        ..*old(self)
                    }))
                    &&& line_frame_rel(*old(self), *final(self), server_id, l@, fx@)
                    &&& (second_token(l@) == "001"@ ==> (exists|m1: App|
                        #[trigger] spark_rel(*old(self), m1, l@) && *final(self) == m1) && exists|
                        k: int,
                    |
                        0 <= k < fx@.len() && ((#[trigger] fx@[k]) matches Effect::AutoJoin {
                            server,
                        } && server == server_id))
                    &&& (second_token(l@) == "366"@ ==> exists|m1: App|
                        #[trigger] spark_rel(*old(self), m1, l@) && *final(self) == m1)
                    &&& (second_token(l@) == "353"@ ==> names_line_rel(
                        *old(self),
                        *final(self),
                        server_id,
                        l@,
                    ))
                    &&& (second_token(l@) == "QUIT"@ ==> quit_line_rel(
                        *old(self),
                        *final(self),
                        server_id,
                        l@,
                    ))
                    &&& (second_token(l@) == "PART"@ ==> part_line_rel(
                        *old(self),
                        *final(self),
                        server_id,
                        l@,
                    ))
                    &&& (second_token(l@) == "NICK"@ ==> nick_line_rel(
                        *old(self),
                        *final(self),
                        server_id,
                        l@,
                    ))
                    &&& (second_token(l@) == "JOIN"@ ==> join_line_rel(
                        *old(self),
                        *final(self),
                        server_id,
                        l@,
                    ))
                    &&& (second_token(l@) == "433"@ ==> collision_line_rel(
                        *old(self),
                        *final(self),
                        server_id,
                        l@,
                        fx@,
                    ))
                    &&& (second_token(l@) == "PRIVMSG"@ ==> privmsg_line_rel(
                        *old(self),
                        *final(self),
                        server_id,
                        l@,
                    ))
                },
            },
    {
        let mut fx: Vec<Effect> = Vec::new();
        match event {
            NetEvent::Error(e) => {
                let sid = self.active_server.clone();
                let cid = self.active_channel.clone();
                self.chat_bounds(e, sid, cid, String::from_str("Error"));
                fx
            },
            NetEvent::Line(line) => {
                proof {
                    reveal_strlit("001");
                    reveal_strlit("NOTICE");
                    reveal_strlit("366");
                    reveal_strlit("322");
                    reveal_strlit("331");
                    reveal_strlit("332");
                    reveal_strlit("433");
                    reveal_strlit("QUIT");
                    reveal_strlit("PART");
                    reveal_strlit("NICK");
                    reveal_strlit("JOIN");
                    reveal_strlit("353");
                    reveal_strlit("PRIVMSG");
                    assert("001"@[0] != "366"@[0]);
                    assert("001"@ != "366"@);
                    assert("001"@[0] != "322"@[0]);
                    assert("001"@ != "322"@);
                    assert("001"@[0] != "331"@[0]);
                    assert("001"@ != "331"@);
                    assert("001"@[0] != "332"@[0]);
                    assert("001"@ != "332"@);
                    assert("001"@[0] != "433"@[0]);
                    assert("001"@ != "433"@);
                    assert("001"@[0] != "353"@[0]);
                    assert("001"@ != "353"@);
                    assert("366"@[1] != "322"@[1]);
                    assert("366"@ != "322"@);
                    assert("366"@[1] != "331"@[1]);
                    assert("366"@ != "331"@);
                    assert("366"@[1] != "332"@[1]);
                    assert("366"@ != "332"@);
                    assert("366"@[0] != "433"@[0]);
                    assert("366"@ != "433"@);
                    assert("366"@[1] != "353"@[1]);
                    assert("366"@ != "353"@);
                    assert("322"@[1] != "331"@[1]);
                    assert("322"@ != "331"@);
                    assert("322"@[1] != "332"@[1]);
                    assert("322"@ != "332"@);
                    assert("322"@[0] != "433"@[0]);
                    assert("322"@ != "433"@);
                    assert("322"@[1] != "353"@[1]);
                    assert("322"@ != "353"@);
                    assert("331"@[2] != "332"@[2]);
                    assert("331"@ != "332"@);
                    assert("331"@[0] != "433"@[0]);
                    assert("331"@ != "433"@);
                    assert("331"@[1] != "353"@[1]);
                    assert("331"@ != "353"@);
                    assert("332"@[0] != "433"@[0]);
                    assert("332"@ != "433"@);
                    assert("332"@[1] != "353"@[1]);
                    assert("332"@ != "353"@);
                    assert("433"@[0] != "353"@[0]);
                    assert("433"@ != "353"@);
                    assert("QUIT"@[0] != "PART"@[0]);
                    assert("QUIT"@ != "PART"@);
                    assert("QUIT"@[0] != "NICK"@[0]);
                    assert("QUIT"@ != "NICK"@);
                    assert("QUIT"@[0] != "JOIN"@[0]);
                    assert("QUIT"@ != "JOIN"@);
                    assert("PART"@[0] != "NICK"@[0]);
                    assert("PART"@ != "NICK"@);
                    assert("PART"@[0] != "JOIN"@[0]);
                    assert("PART"@ != "JOIN"@);
                    assert("NICK"@[0] != "JOIN"@[0]);
                    assert("NICK"@ != "JOIN"@);
                }
                self.set_spark(line.as_str());
                let ghost m1 = *self;
                proof {
                    assert(spark_rel(*old(self), m1, line@));
                }
                let len = line.as_str().unicode_len();
                let a = skip_ws(line.as_str(), 0, len);
                let b = crate::text::token_end(line.as_str(), a, len);
                let prefix = crate::text::substr(line.as_str(), a, b);
                let c = skip_ws(line.as_str(), b, len);
                let d = crate::text::token_end(line.as_str(), c, len);
                let arg = crate::text::substr(line.as_str(), c, d);
                proof {
                    assert(prefix@ == first_token(line@));
                    assert(arg@ == second_token(line@));
                }
                let alen = arg.as_str().unicode_len();
                let command = match crate::text::find_sub(line.as_str(), arg.as_str()) {
                    Option::Some(p) => {
                        let t = crate::text::substr(line.as_str(), p + alen, len);
                        proof {
                            assert(t@ =~= line@.skip(p + alen));
                        }
                        t
                    },
                    Option::None => {
                        let t = crate::text::substr(line.as_str(), 0, len);
                        proof {
                            assert(t@ =~= line@);
                        }
                        t
                    },
                };
                proof {
                    assert(command@ == cmd_text(line@));
                }
                let clen = command.as_str().unicode_len();
                if str_eqs(prefix.as_str(), "PING") {
                    let pong = Self::pong_line(line.as_str());
                    fx.push(Effect::Send { server: server_id.clone(), line: pong });
                }
                if str_eqs(arg.as_str(), "001") {
                    fx.push(Effect::AutoJoin { server: server_id.clone() });
                    proof {
                        assert(fx@[fx@.len() - 1] matches Effect::AutoJoin { server } && server
                            == server_id);
                    }
                } else if str_eqs(arg.as_str(), "NOTICE") {
                    if crate::text::ci_starts(prefix.as_str(), ":ALIS!") {
                        self.list_pos = 0;
                        self.popup = crate::state::Popup::List;
                        let h = match crate::text::find_char(line.as_str(), '#') {
                            Option::Some(h) => h,
                            Option::None => 0,
                        };
                        proof {
                            crate::text::lemma_idx_of_first(line@, '#');
                        }
                        let result = crate::text::substr(line.as_str(), h, len);
                        if crate::text::ci_contains(result.as_str(), "RETURNING MAXIMUM OF")
                            || crate::text::ci_contains(
                            result.as_str(),
                            "MAXIMUM CHANNEL OUTPUT REACHED",
                        ) {
                            // suppressed boilerplate
                        } else {
                            self.list_response.push(result);
                        }
                    } else {
                        let ghost pre = *self;
                        self.chat_bounds(
                            line.clone(),
                            server_id.clone(),
                            String::from_str("Status"),
                            arg.clone(),
                        );
                        proof {
                            assert(match key_idx(pre.server_list@, server_id@) {
                                Option::None => self.server_list@ == pre.server_list@,
                                Option::Some(si) => only_srv_changed(
                                    pre.server_list@,
                                    self.server_list@,
                                    si,
                                ),
                            });
                            lemma_others_kept_of_match(
                                pre.server_list@,
                                self.server_list@,
                                server_id@,
                            );
                        }
                    }
                } else if str_eqs(arg.as_str(), "366") {
                    // end-of-names replies are not shown
                } else if str_eqs(arg.as_str(), "322") {
                    self.list_pos = 0;
                    self.popup = crate::state::Popup::List;
                    let h = match crate::text::find_char(line.as_str(), '#') {
                        Option::Some(h) => h,
                        Option::None => 0,
                    };
                    proof {
                        crate::text::lemma_idx_of_first(line@, '#');
                    }
                    let result = crate::text::substr(line.as_str(), h, len);
                    self.list_response.push(result);
                } else if str_eqs(arg.as_str(), "331") || str_eqs(arg.as_str(), "332") {
                    let st = match crate::text::find_char(command.as_str(), '#') {
                        Option::Some(st) => st,
                        Option::None => 0,
                    };
                    let en = match crate::text::find_char(command.as_str(), ':') {
                        Option::Some(en) => en,
                        Option::None => 0,
                    };
                    proof {
                        crate::text::lemma_idx_of_first(command@, '#');
                        crate::text::lemma_idx_of_first(command@, ':');
                    }
                    let ghost pre = *self;
                    if st < en && en >= 1 && en + 1 <= clen {
                        let topic = crate::text::substr(command.as_str(), en + 1, clen);
                        let chan = crate::text::substr(command.as_str(), st, en - 1);
                        self.chat_bounds(topic, server_id.clone(), chan, arg.clone());
                    } else {
                        // a malformed reply degrades to the whole remainder
                        self.chat_bounds(
                            command.clone(),
                            server_id.clone(),
                            String::from_str("Status"),
                            arg.clone(),
                        );
                    }
                    proof {
                        assert(match key_idx(pre.server_list@, server_id@) {
                            Option::None => self.server_list@ == pre.server_list@,
                            Option::Some(si) => only_srv_changed(
                                pre.server_list@,
                                self.server_list@,
                                si,
                            ),
                        });
                        lemma_others_kept_of_match(
                            pre.server_list@,
                            self.server_list@,
                            server_id@,
                        );
                    }
                } else if str_eqs(arg.as_str(), "433") {
                    let r = self.apply_nick_collision(server_id.as_str());
                    let ghost m2 = *self;
                    match &r {
                        Option::Some(n) => {
                            fx.push(
                                Effect::Send {
                                    server: server_id.clone(),
                                    line: String::from_str("NICK ").concat(n.as_str()),
                                },
                            );
                            proof {
                                assert(fx@[fx@.len() - 1] matches Effect::Send {
                                    server,
                                    line: ol,
                                } && server == server_id && ol@ == "NICK "@ + n@);
                                assert(sent_nick_fix(fx@, server_id, *n));
                            }
                        },
                        Option::None => {},
                    }
                    self.quote_status(&server_id, &prefix, &command, &arg, Ghost(line@));
                    proof {
                        assert(collision_rel(m1, m2, server_id@, r));
                        assert(collision_line_rel(*old(self), *self, server_id, line@, fx@));
                        assert(match key_idx(m1.server_list@, server_id@) {
                            Option::None => m2.server_list@ == m1.server_list@,
                            Option::Some(si) => only_srv_changed(
                                m1.server_list@,
                                m2.server_list@,
                                si,
                            ),
                        });
                        lemma_others_kept_of_match(m1.server_list@, m2.server_list@, server_id@);
                        lemma_others_kept_trans(
                            m1.server_list@,
                            m2.server_list@,
                            self.server_list@,
                            server_id@,
                        );
                    }
                } else if str_eqs(arg.as_str(), "QUIT") {
                    let actor = crate::text::actor_name(line.as_str());
                    let i = crate::text::strip_priv_idx(actor.as_str());
                    let actor_len = actor.as_str().unicode_len();
                    let target = crate::text::substr(actor.as_str(), i, actor_len);
                    proof {
                        assert(target@ =~= actor@.skip(i as int));
                    }
                    self.apply_quit(server_id.as_str(), target.as_str());
                    let ghost m2 = *self;
                    self.quote_status(&server_id, &prefix, &command, &arg, Ghost(line@));
                    proof {
                        assert(quit_rel(m1, m2, server_id@, strip_priv(actor_of(line@))));
                        assert(quit_line_rel(*old(self), *self, server_id, line@));
                        assert(match key_idx(m1.server_list@, server_id@) {
                            Option::None => m2.server_list@ == m1.server_list@,
                            Option::Some(si) => only_srv_changed(
                                m1.server_list@,
                                m2.server_list@,
                                si,
                            ),
                        });
                        lemma_others_kept_of_match(m1.server_list@, m2.server_list@, server_id@);
                        lemma_others_kept_trans(
                            m1.server_list@,
                            m2.server_list@,
                            self.server_list@,
                            server_id@,
                        );
                    }
                } else if str_eqs(arg.as_str(), "PART") {
                    let actor = crate::text::actor_name(line.as_str());
                    let chan = crate::text::first_token_of(command.as_str());
                    self.apply_part_member(server_id.as_str(), chan.as_str(), actor.as_str());
                    let ghost m2 = *self;
                    self.quote_status(&server_id, &prefix, &command, &arg, Ghost(line@));
                    proof {
                        assert(part_member_rel(
                            m1,
                            m2,
                            server_id@,
                            first_token(cmd_text(line@)),
                            actor_of(line@),
                        ));
                        assert(part_line_rel(*old(self), *self, server_id, line@));
                        assert(match key_idx(m1.server_list@, server_id@) {
                            Option::None => m2.server_list@ == m1.server_list@,
                            Option::Some(si) => only_srv_changed(
                                m1.server_list@,
                                m2.server_list@,
                                si,
                            ),
                        });
                        lemma_others_kept_of_match(m1.server_list@, m2.server_list@, server_id@);
                        lemma_others_kept_trans(
                            m1.server_list@,
                            m2.server_list@,
                            self.server_list@,
                            server_id@,
                        );
                    }
                } else if str_eqs(arg.as_str(), "NICK") {
                    self.on_nick(&server_id, &prefix, &command, &arg, &line);
                    proof {
                        assert(nick_line_rel(*old(self), *self, server_id, line@));
                    }
                } else if str_eqs(arg.as_str(), "JOIN") {
                    self.on_join(&server_id, &prefix, &command, &arg, &line);
                    proof {
                        assert(join_line_rel(*old(self), *self, server_id, line@));
                    }
                } else if str_eqs(arg.as_str(), "353") {
                    let names_from = match crate::text::find_char(command.as_str(), ':') {
                        Option::Some(p) => {
                            proof {
                                crate::text::lemma_idx_of_first(command@, ':');
                            }
                            p + 1
                        },
                        Option::None => {
                            if clen >= 1 {
                                1
                            } else {
                                0
                            }
                        },
                    };
                    let result = crate::text::substr(command.as_str(), names_from, clen);
                    proof {
                        assert(result@ =~= names_text(line@));
                    }
                    let names = crate::text::split_tokens(result.as_str());
                    match crate::text::hash_token(command.as_str()) {
                        Option::Some(chan) => {
                            self.apply_names(server_id.as_str(), chan.as_str(), &names);
                            proof {
                                assert(views_of(names@) == split_ws_seq(names_text(line@)));
                                assert(names_rel(m1, *self, server_id@, chan@, names@));
                                assert(names_after(m1, *self, server_id, chan@, line@));
                                assert(hash_tok(cmd_text(line@)) == Option::Some(chan@));
                                assert(names_line_rel(*old(self), *self, server_id, line@));
                            }
                        },
                        Option::None => {
                            proof {
                                assert(*self == m1);
                                assert(names_line_rel(*old(self), *self, server_id, line@));
                            }
                        },
                    }
                    proof {
                        assert(names_line_rel(*old(self), *self, server_id, line@));
                        assert(match key_idx(m1.server_list@, server_id@) {
                            Option::None => self.server_list@ == m1.server_list@,
                            Option::Some(si) => only_srv_changed(
                                m1.server_list@,
                                self.server_list@,
                                si,
                            ),
                        });
                        lemma_others_kept_of_match(m1.server_list@, self.server_list@, server_id@);
                    }
                } else if str_eqs(arg.as_str(), "PRIVMSG") {
                    let res_nick = crate::text::actor_name(line.as_str());
                    let ghost gnick = res_nick;
                    let msg_start = crate::text::find_sub(line.as_str(), "PRIVMSG ");
                    let end_mess = crate::text::find_sub(line.as_str(), " :");
                    match (msg_start, end_mess) {
                        (Option::Some(mp), Option::Some(em)) => {
                            proof {
                                reveal_strlit("PRIVMSG ");
                                reveal_strlit(" :");
                            }
                            if mp + 8 <= em {
                                let msg_chan = crate::text::substr(line.as_str(), mp + 8, em);
                                let msg = crate::text::substr(line.as_str(), em + 2, len);
                                let ghost gchan = msg_chan;
                                let ghost gmsg = msg;
                                proof {
                                    assert(msg@ =~= line@.skip(em + 2));
                                }
                                let mclen = msg_chan.as_str().unicode_len();
                                if mclen >= 1 && msg_chan.as_str().get_char(0) == '#' {
                                    self.chat_bounds(
                                        msg,
                                        server_id.clone(),
                                        msg_chan,
                                        res_nick,
                                    );
                                    proof {
                                        assert(crate::state::app_append_rel(
                                            m1,
                                            *self,
                                            server_id,
                                            gchan,
                                            gnick,
                                            gmsg,
                                        ));
                                        assert(privmsg_chan_case(
                                            m1,
                                            *self,
                                            server_id,
                                            line@,
                                            mp as int,
                                            em as int,
                                        ));
                                        assert(match key_idx(m1.server_list@, server_id@) {
                                            Option::None => self.server_list@ == m1.server_list@,
                                            Option::Some(si) => only_srv_changed(
                                                m1.server_list@,
                                                self.server_list@,
                                                si,
                                            ),
                                        });
                                        lemma_others_kept_of_match(
                                            m1.server_list@,
                                            self.server_list@,
                                            server_id@,
                                        );
                                    }
                                } else {
                                    let deco = msg_chan.concat("-> ").concat(msg.as_str());
                                    let ghost gdeco = deco;
                                    self.chat_bounds(
                                        deco.clone(),
                                        server_id.clone(),
                                        res_nick.clone(),
                                        res_nick.clone(),
                                    );
                                    let ghost m2 = *self;
                                    proof {
                                        assert(crate::state::app_append_rel(
                                            m1,
                                            m2,
                                            server_id,
                                            gnick,
                                            gnick,
                                            gdeco,
                                        ));
                                        assert(match key_idx(m1.server_list@, server_id@) {
                                            Option::None => m2.server_list@ == m1.server_list@,
                                            Option::Some(si) => only_srv_changed(
                                                m1.server_list@,
                                                m2.server_list@,
                                                si,
                                            ),
                                        });
                                        lemma_others_kept_of_match(
                                            m1.server_list@,
                                            m2.server_list@,
                                            server_id@,
                                        );
                                    }
                                    if !str_eqs(
                                        self.active_channel.as_str(),
                                        res_nick.as_str(),
                                    ) {
                                        let cid = self.active_channel.clone();
                                        self.chat_bounds(
                                            deco,
                                            server_id.clone(),
                                            cid.clone(),
                                            res_nick,
                                        );
                                        proof {
                                            assert(crate::state::app_append_rel(
                                                m2,
                                                *self,
                                                server_id,
                                                cid,
                                                gnick,
                                                gdeco,
                                            ));
                                            assert(match key_idx(m2.server_list@, server_id@) {
                                                Option::None => self.server_list@
                                                    == m2.server_list@,
                                                Option::Some(si) => only_srv_changed(
                                                    m2.server_list@,
                                                    self.server_list@,
                                                    si,
                                                ),
                                            });
                                            lemma_others_kept_of_match(
                                                m2.server_list@,
                                                self.server_list@,
                                                server_id@,
                                            );
                                            lemma_others_kept_trans(
                                                m1.server_list@,
                                                m2.server_list@,
                                                self.server_list@,
                                                server_id@,
                                            );
                                        }
                                    }
                                }
                            }
                        },
                        _ => {
                            // a message without the expected delimiters is dropped
                        },
                    }
                    proof {
                        match (msg_start, end_mess) {
                            (Option::Some(mp), Option::Some(em)) => {
                                if mp + 8 <= em {
                                    if line@.subrange(mp as int + 8, em as int).len() >= 1
                                        && line@.subrange(mp as int + 8, em as int)[0] == '#' {
                                    } else {
                                        assert(privmsg_priv_case(
                                            m1,
                                            *self,
                                            server_id,
                                            line@,
                                            mp as int,
                                            em as int,
                                        ));
                                    }
                                }
                            },
                            _ => {},
                        }
                        assert(privmsg_line_rel(*old(self), *self, server_id, line@));
                    }
                } else {
                    if len > 0 && line.as_str().get_char(0) == ':' {
                        let trimmed = if clen >= 1 {
                            let t = command.as_str().substring_char(1, clen);
                            strip_controls(t)
                        } else {
                            strip_controls(command.as_str())
                        };
                        let ghost pre = *self;
                        self.chat_bounds(
                            trimmed,
                            server_id.clone(),
                            String::from_str("Status"),
                            arg.clone(),
                        );
                        proof {
                            assert(match key_idx(pre.server_list@, server_id@) {
                                Option::None => self.server_list@ == pre.server_list@,
                                Option::Some(si) => only_srv_changed(
                                    pre.server_list@,
                                    self.server_list@,
                                    si,
                                ),
                            });
                            lemma_others_kept_of_match(
                                pre.server_list@,
                                self.server_list@,
                                server_id@,
                            );
                        }
                    }
                }
                proof {
                    assert(others_kept(
                        old(self).server_list@,
                        self.server_list@,
                        server_id@,
                    ));
                    assert forall|k: int| 0 <= k < fx@.len() implies ((#[trigger] fx@[k]) matches
                        Effect::Send { server, line: ol } && server == server_id) || (
                    fx@[k] matches Effect::AutoJoin { server } && server == server_id) by {}
                    assert(line_frame_rel(*old(self), *self, server_id, line@, fx@));
                }
                fx
            },
        }
    }
}

} // verus!
