//! Properties of the state transitions, stated and proved once for all
//! inputs.

use vstd::prelude::*;
use crate::state::ChannelData;
use crate::state::channel_append_rel;
use crate::state::trim_hist;
use crate::state::wf_channel;
use crate::state::HIGH_WATER;
use crate::state::EVICT;

verus! {

/// Retention: however many lines are appended, a channel's history never
/// exceeds the ceiling, and what is kept is always a suffix of the lines
/// appended so far, in arrival order.
pub proof fn law_retention(old_c: ChannelData, new_c: ChannelData, nick: String, data: String, vis: bool, width: int)
    requires
        wf_channel(old_c),
        channel_append_rel(old_c, new_c, nick, data, vis, width),
    ensures
        wf_channel(new_c),
        new_c.chat_list@.len() <= HIGH_WATER + 1,
        new_c.chat_list@ == (old_c.chat_list@.push((nick, data))).skip(
            if old_c.chat_list@.len() > HIGH_WATER {
                EVICT as int
            } else {
                0
            },
        ),
{
    let appended = old_c.chat_list@.push((nick, data));
    if old_c.chat_list@.len() > HIGH_WATER {
        assert(trim_hist(old_c.chat_list@).push((nick, data)) =~= appended.skip(EVICT as int));
    } else {
        assert(trim_hist(old_c.chat_list@).push((nick, data)) =~= appended.skip(0));
    }
}

/// Unseen activity: appending to a channel that is on screen leaves its
/// flag clear (it was clear while watched), and appending to any other
/// channel raises it.
pub proof fn law_unseen(old_c: ChannelData, new_c: ChannelData, nick: String, data: String, vis: bool, width: int)
    requires
        channel_append_rel(old_c, new_c, nick, data, vis, width),
    ensures
        vis && !old_c.notification ==> new_c.notification == false,
        !vis ==> new_c.notification == true,
{
}

} // verus!
