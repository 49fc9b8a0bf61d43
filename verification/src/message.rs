use vstd::prelude::*;
use crate::user::UserId;

verus! {

pub type MessageId = u64;

/// A message from one user to another; the timestamp counts seconds since
/// the epoch.
pub struct Message {
    pub message_id: MessageId,
    pub from_user_id: UserId,
    pub to_user_id: UserId,
    pub date_time: u64,
    pub message: String,
}

/// The largest message id on record; zero when there are none.
pub open spec fn max_message_id(messages: Seq<Message>) -> nat
    decreases messages.len(),
{
    if messages.len() == 0 {
        0
    } else if messages.last().message_id >= max_message_id(messages.drop_last()) {
        messages.last().message_id as nat
    } else {
        max_message_id(messages.drop_last())
    }
}

/// Records a new message under the next free id, timestamped by the caller.
pub fn create_message(
    messages: &mut Vec<Message>,
    from_user_id: UserId,
    to_user_id: UserId,
    message: &String,
    now: u64,
) -> (r: MessageId)
    requires
        max_message_id(old(messages)@) < u64::MAX,
    ensures
        r == max_message_id(old(messages)@) + 1,
        final(messages)@.len() == old(messages)@.len() + 1,
        forall|i: int| 0 <= i < old(messages)@.len() ==> final(messages)@[i] == old(messages)@[i],
        ({
            let fresh = final(messages)@.last();
            fresh.message_id == r && fresh.from_user_id == from_user_id && fresh.to_user_id
                == to_user_id && fresh.date_time == now && fresh.message@ == message@
        }),
{
    let n = messages.len();
    let mut m: u64 = 0;
    let mut i: usize = 0;
    while i < n
        invariant
            n == messages@.len(),
            0 <= i <= n,
            m == max_message_id(messages@.subrange(0, i as int)),
        decreases n - i,
    {
        if messages[i].message_id > m {
            m = messages[i].message_id;
        }
        i += 1;
        proof {
            let cur = messages@.subrange(0, i as int);
            assert(cur.drop_last() =~= messages@.subrange(0, i - 1));
            assert(cur.last() == messages@[i - 1]);
        }
    }
    proof {
        assert(messages@.subrange(0, n as int) =~= messages@);
    }
    let message_id = m + 1;
    messages.push(
        Message {
            message_id,
            from_user_id,
            to_user_id,
            date_time: now,
            message: message.clone(),
        },
    );
    message_id
}

impl Message {
    pub fn new(
        message_id: MessageId,
        from_user_id: UserId,
        to_user_id: UserId,
        seconds: u64,
        message: String,
    ) -> (m: Message)
        ensures
            m.message_id == message_id,
            m.from_user_id == from_user_id,
            m.to_user_id == to_user_id,
            m.date_time == seconds,
            m.message@ == message@,
    {
        Message { message_id, from_user_id, to_user_id, date_time: seconds, message }
    }
}

} // verus!
