use vstd::prelude::*;
use crate::constants::KcpLogFlags;

verus! {

/// What a control block lets nobody else write: the conversation id and the
/// user payload, which stay as they were given at construction, and the
/// logging settings, which change through their setters only.
pub struct Sealed<U> {
    conversation_id: u32,
    user_data: Option<U>,
    write_log: bool,
    log_mask: KcpLogFlags,
}

impl<U> Sealed<U> {
    /// The conversation id.
    pub closed spec fn conv(&self) -> u32 {
        self.conversation_id
    }

    /// The user payload.
    pub closed spec fn user(&self) -> Option<U> {
        self.user_data
    }

    /// Whether logging is on.
    pub closed spec fn logs(&self) -> bool {
        self.write_log
    }

    /// The categories of events that are logged.
    pub closed spec fn mask(&self) -> KcpLogFlags {
        self.log_mask
    }

    /// Conversation id 0, no user payload, logging off.
    pub(crate) fn new() -> (r: Self)
        ensures
            r.conv() == 0,
            r.user().is_none(),
            !r.logs(),
            r.mask().bits == 0,
    {
        Sealed {
            conversation_id: 0,
            user_data: None,
            write_log: false,
            log_mask: KcpLogFlags { bits: 0 },
        }
    }

    /// Gives the conversation id and the user payload.
    pub(crate) fn identify(&mut self, conversation_id: u32, user_data: Option<U>)
        ensures
            final(self).conv() == conversation_id,
            final(self).user() == user_data,
            final(self).logs() == old(self).logs(),
            final(self).mask() == old(self).mask(),
    {
        self.conversation_id = conversation_id;
        self.user_data = user_data;
    }

    /// The conversation id.
    pub fn conversation_id(&self) -> (r: u32)
        ensures
            r == self.conv(),
    {
        self.conversation_id
    }

    /// The user payload.
    pub fn user_data(&self) -> (r: Option<&U>)
        ensures
            r.is_some() == self.user().is_some(),
            r.is_some() ==> *r.unwrap() == self.user().unwrap(),
    {
        self.user_data.as_ref()
    }

    /// Whether logging is on.
    pub fn write_log(&self) -> (r: bool)
        ensures
            r == self.logs(),
    {
        self.write_log
    }

    /// The categories of events that are logged.
    pub fn log_mask(&self) -> (r: &KcpLogFlags)
        ensures
            *r == self.mask(),
    {
        &self.log_mask
    }

    /// Switches logging on or off.
    pub fn set_logging(&mut self, enable: bool)
        ensures
            final(self).logs() == enable,
            final(self).mask() == old(self).mask(),
            final(self).conv() == old(self).conv(),
            final(self).user() == old(self).user(),
    {
        self.write_log = enable;
    }

    /// Chooses the categories of events that are logged.
    pub fn set_log_mask(&mut self, mask: KcpLogFlags)
        ensures
            final(self).mask() == mask,
            final(self).logs() == old(self).logs(),
            final(self).conv() == old(self).conv(),
            final(self).user() == old(self).user(),
    {
        self.log_mask = mask;
    }
}

} // verus!
