//! Websocket messages.

use crate::text::text_view;
use crate::text::utf8_text;
use vstd::prelude::*;
use vstd::utf8::decode_utf8;
use vstd::utf8::valid_utf8;

verus! {

/// Why a connection is closed.
#[derive(Debug)]
pub struct CloseFrame {
    pub code: u16,
    pub reason: String,
}

/// A websocket message. What a raw frame holds is not read.
#[derive(Debug)]
pub enum Message {
    Text(String),
    Binary(Vec<u8>),
    Ping(Vec<u8>),
    Pong(Vec<u8>),
    Close(Option<CloseFrame>),
    Frame,
}

/// The contents of a message.
pub enum MessageView {
    Text(Seq<char>),
    Binary(Seq<u8>),
    Ping(Seq<u8>),
    Pong(Seq<u8>),
    /// The code and the reason, where they are given.
    Close(Option<(u16, Seq<char>)>),
    Frame,
}

impl View for Message {
    type V = MessageView;

    open spec fn view(&self) -> MessageView {
        match self {
            Message::Text(t) => MessageView::Text(t@),
            Message::Binary(b) => MessageView::Binary(b@),
            Message::Ping(b) => MessageView::Ping(b@),
            Message::Pong(b) => MessageView::Pong(b@),
            Message::Close(frame) => MessageView::Close(
                match frame {
                    Some(f) => Some((f.code, f.reason@)),
                    None => None,
                },
            ),
            Message::Frame => MessageView::Frame,
        }
    }
}

impl MessageView {
    /// The text of a text message, or of a binary message that holds valid UTF-8.
    pub open spec fn text(self) -> Option<Seq<char>> {
        match self {
            MessageView::Text(t) => Some(t),
            MessageView::Binary(b) => if valid_utf8(b) {
                Some(decode_utf8(b))
            } else {
                None
            },
            _ => None,
        }
    }
}

impl Message {
    /// The text of a text message, or of a binary message that holds valid UTF-8.
    pub fn text(&self) -> (r: Option<String>)
        ensures
            text_view(r) == self@.text(),
    {
        match self {
            Message::Text(t) => Some(t.clone()),
            Message::Binary(b) => utf8_text(b.clone()),
            _ => None,
        }
    }
}

} // verus!
