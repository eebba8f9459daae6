//! Balance updates.

use crate::error::CoreError;
use crate::json::event_payload;
use crate::json::message_readings;
use crate::json::read_event_payload;
use crate::json::readings_of;
use crate::message::Message;
use crate::message::MessageView;
use crate::text::text_view;
use crate::text::texts;
use vstd::prelude::*;

verus! {

/// Reads messages that tell the balance. A message is either the balance itself or an event that
/// carries it.
pub struct BalanceModule;

impl BalanceModule {
    /// The balance that a text carries which is no balance by itself, as JSON text.
    pub fn one_step_payload(text: &str) -> (r: Option<String>)
        ensures
            text_view(r) == event_payload(text@, "successupdateBalance"@),
    {
        read_event_payload(text, "successupdateBalance")
    }

    /// The JSON texts that may be the balance, in the order in which they are tried.
    pub fn readings(msg: &Message) -> (r: Vec<String>)
        ensures
            texts(r@) == readings_of(
                msg@,
                match msg@ {
                    MessageView::Text(text) => event_payload(text, "successupdateBalance"@),
                    _ => None,
                },
            ),
    {
        let payload = match msg {
            Message::Text(text) => BalanceModule::one_step_payload(text.as_str()),
            _ => None,
        };
        message_readings(msg, payload)
    }

    /// What the module comes to when there are no more messages.
    pub fn ended() -> (r: CoreError)
        ensures
            r matches CoreError::LightweightModuleLoop(name) && name@ == "BalanceModule"@,
    {
        CoreError::LightweightModuleLoop("BalanceModule".to_owned())
    }
}

} // verus!
