//! Asset updates.

use crate::error::CoreError;
use crate::json::event_payload;
use crate::json::message_readings;
use crate::json::read_event_payload;
use crate::json::readings_of;
use crate::message::Message;
use crate::message::MessageView;
use crate::text::text_view;
use crate::text::texts;
use vstd::prelude::*;

verus! {

/// Reads messages that list the assets. A message is either the list itself or an event that
/// carries it; what is read replaces all assets.
pub struct AssetsModule;

impl AssetsModule {
    /// The list of assets that a text carries which is no list by itself, as JSON text.
    pub fn one_step_payload(text: &str) -> (r: Option<String>)
        ensures
            text_view(r) == event_payload(text@, "updateAssets"@),
    {
        read_event_payload(text, "updateAssets")
    }

    /// The JSON texts that may be the list of assets, in the order in which they are tried.
    pub fn readings(msg: &Message) -> (r: Vec<String>)
        ensures
            texts(r@) == readings_of(
                msg@,
                match msg@ {
                    MessageView::Text(text) => event_payload(text, "updateAssets"@),
                    _ => None,
                },
            ),
    {
        let payload = match msg {
            Message::Text(text) => AssetsModule::one_step_payload(text.as_str()),
            _ => None,
        };
        message_readings(msg, payload)
    }

    /// What the module comes to when there are no more messages.
    pub fn ended() -> (r: CoreError)
        ensures
            r matches CoreError::LightweightModuleLoop(name) && name@ == "AssetsModule"@,
    {
        CoreError::LightweightModuleLoop("AssetsModule".to_owned())
    }
}

} // verus!
