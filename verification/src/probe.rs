//! The live probe of a stream that begins with history: its arguments, how it waits for
//! events, and what it holds the sent messages to.

use crate::chart_stream::HistoryStreamMode;
use crate::error::is_general;
use crate::error::PocketError;
use crate::error::PocketResult;
use crate::message::Message;
use crate::message::MessageView;
use crate::text::contains;
use crate::text::occurs;
use crate::text::occurs_at;
use crate::text::same_text;
use crate::text::text_view;
use crate::text::texts;
use crate::wire::change_symbol_text;
use crate::wire::digits;
use crate::wire::number_text;
use vstd::prelude::*;
use vstd::string::StringExecFns;

verus! {

pub const DEFAULT_ASSET: &'static str = "EURUSD_otc";

pub const DEFAULT_PERIOD: u32 = 5;

pub const DEFAULT_LIVE_SECONDS: u64 = 20;

/// How many seconds the probe waits for an event of the history.
pub const BOOTSTRAP_TIMEOUT: u64 = 30;

/// Whether a text is made of ASCII characters.
pub open spec fn is_plain(text: Seq<char>) -> bool {
    forall|i: int| 0 <= i < text.len() ==> (#[trigger] text[i] as u32) < 128
}

/// An ASCII capital turned into its small letter; any other character as it is.
pub open spec fn small(c: char) -> char {
    if 65 <= c as u32 <= 90 {
        (c as u32 + 32) as char
    } else {
        c
    }
}

/// A text in small letters, as `str::to_lowercase` gives it.
pub uninterp spec fn unicode_lowercase(text: Seq<char>) -> Seq<char>;

/// A text in small letters.
pub open spec fn lowercase(text: Seq<char>) -> Seq<char> {
    if is_plain(text) {
        text.map_values(|c: char| small(c))
    } else {
        unicode_lowercase(text)
    }
}

/// `str::to_lowercase`: in a text of ASCII characters the capitals turn into small letters.
/// What it makes of other texts follows Unicode's tables and is only named.
#[verifier::external_body]
fn to_lowercase(text: &str) -> (r: String)
    ensures
        r@ == lowercase(text@),
        !is_plain(text@) ==> r@ == unicode_lowercase(text@),
{
    text.to_lowercase()
}

/// The digits of an unsigned number: what follows a plus sign, where there is one.
pub open spec fn unsigned_digits(text: Seq<char>) -> Seq<char> {
    if text.len() > 0 && text[0] == '+' {
        text.skip(1)
    } else {
        text
    }
}

/// Whether a text is a decimal digit or more.
pub open spec fn are_digits(text: Seq<char>) -> bool {
    text.len() > 0 && forall|i: int| 0 <= i < text.len() ==> 48 <= #[trigger] text[i] as u32 <= 57
}

/// The value of decimal digits.
pub open spec fn digits_value(text: Seq<char>) -> int
    decreases text.len(),
{
    if text.len() == 0 {
        0
    } else {
        digits_value(text.drop_last()) * 10 + (text.last() as u32 - 48)
    }
}

/// The unsigned number that a text gives, where it gives one.
pub open spec fn unsigned_value(text: Seq<char>) -> Option<int> {
    if are_digits(unsigned_digits(text)) {
        Some(digits_value(unsigned_digits(text)))
    } else {
        None
    }
}

/// What `u32`'s `FromStr` says of a text that it does not read.
pub uninterp spec fn u32_fault(text: Seq<char>) -> Seq<char>;

/// `str::parse` to `u32`: it reads digits behind an optional plus sign, where their value
/// is at most `u32::MAX`. The text of the error is only named.
#[verifier::external_body]
fn parse_u32(text: &str) -> (r: Result<u32, String>)
    ensures
        match r {
            Ok(n) => unsigned_value(text@) == Some(n as int),
            Err(e) => e@ == u32_fault(text@) && (unsigned_value(text@) matches Some(v) ==> v
                > u32::MAX),
        },
{
    text.parse::<u32>().map_err(|e| e.to_string())
}

/// What `u64`'s `FromStr` says of a text that it does not read.
pub uninterp spec fn u64_fault(text: Seq<char>) -> Seq<char>;

/// `str::parse` to `u64`: it reads digits behind an optional plus sign, where their value
/// is at most `u64::MAX`. The text of the error is only named.
#[verifier::external_body]
fn parse_u64(text: &str) -> (r: Result<u64, String>)
    ensures
        match r {
            Ok(n) => unsigned_value(text@) == Some(n as int),
            Err(e) => e@ == u64_fault(text@) && (unsigned_value(text@) matches Some(v) ==> v
                > u64::MAX),
        },
{
    text.parse::<u64>().map_err(|e| e.to_string())
}

/// What the probe is to do.
#[derive(Debug)]
pub struct Args {
    pub ssid: String,
    pub asset: String,
    pub period: u32,
    pub mode: HistoryStreamMode,
    pub live_seconds: u64,
}

/// What a command line asks for.
#[derive(Debug)]
pub enum Invocation {
    Help,
    Run(Args),
}

/// What is set while a command line is read.
pub struct SettingsView {
    pub ssid: Option<Seq<char>>,
    pub asset: Seq<char>,
    pub period: u32,
    pub mode: HistoryStreamMode,
    pub live_seconds: u64,
}

/// What a command line comes to.
pub enum InvocationView {
    Help,
    Run {
        ssid: Seq<char>,
        asset: Seq<char>,
        period: u32,
        mode: HistoryStreamMode,
        live_seconds: u64,
    },
    Refused(Seq<char>),
}

/// What is set before the first argument.
pub open spec fn default_settings(ssid: Option<Seq<char>>) -> SettingsView {
    SettingsView {
        ssid,
        asset: DEFAULT_ASSET@,
        period: DEFAULT_PERIOD,
        mode: HistoryStreamMode::Points,
        live_seconds: DEFAULT_LIVE_SECONDS,
    }
}

/// The mode with a name in small letters.
pub open spec fn mode_named(name: Seq<char>) -> Option<HistoryStreamMode> {
    if name == "points"@ {
        Some(HistoryStreamMode::Points)
    } else if name == "ohlc"@ {
        Some(HistoryStreamMode::Ohlc)
    } else {
        None
    }
}

pub open spec fn requires_value(flag: Seq<char>) -> InvocationView {
    InvocationView::Refused(flag + " requires a value"@)
}

pub open spec fn invalid_value(flag: Seq<char>, raw: Seq<char>, fault: Seq<char>) -> InvocationView {
    InvocationView::Refused("Invalid "@ + flag + " value '"@ + raw + "': "@ + fault)
}

/// What the rest of a command line comes to.
pub open spec fn invoked(set: SettingsView, args: Seq<Seq<char>>) -> InvocationView
    decreases args.len(),
{
    if args.len() == 0 {
        match set.ssid {
            Some(ssid) => InvocationView::Run {
                ssid,
                asset: set.asset,
                period: set.period,
                mode: set.mode,
                live_seconds: set.live_seconds,
            },
            None => InvocationView::Refused(
                "Missing SSID. Pass --ssid or set POCKET_OPTION_SSID."@,
            ),
        }
    } else if args[0] == "--ssid"@ {
        if args.len() == 1 {
            invoked(SettingsView { ssid: None, ..set }, args.skip(1))
        } else {
            invoked(SettingsView { ssid: Some(args[1]), ..set }, args.skip(2))
        }
    } else if args[0] == "--asset"@ {
        if args.len() == 1 {
            requires_value("--asset"@)
        } else {
            invoked(SettingsView { asset: args[1], ..set }, args.skip(2))
        }
    } else if args[0] == "--period"@ {
        if args.len() == 1 {
            requires_value("--period"@)
        } else {
            match unsigned_value(args[1]) {
                Some(v) if v <= u32::MAX => invoked(
                    SettingsView { period: v as u32, ..set },
                    args.skip(2),
                ),
                _ => invalid_value("--period"@, args[1], u32_fault(args[1])),
            }
        }
    } else if args[0] == "--mode"@ {
        if args.len() == 1 {
            requires_value("--mode"@)
        } else {
            match mode_named(lowercase(args[1])) {
                Some(mode) => invoked(SettingsView { mode, ..set }, args.skip(2)),
                None => InvocationView::Refused("--mode must be 'points' or 'ohlc'"@),
            }
        }
    } else if args[0] == "--seconds"@ {
        if args.len() == 1 {
            requires_value("--seconds"@)
        } else {
            match unsigned_value(args[1]) {
                Some(v) if v <= u64::MAX => invoked(
                    SettingsView { live_seconds: v as u64, ..set },
                    args.skip(2),
                ),
                _ => invalid_value("--seconds"@, args[1], u64_fault(args[1])),
            }
        }
    } else if args[0] == "--help"@ || args[0] == "-h"@ {
        InvocationView::Help
    } else {
        InvocationView::Refused("Unknown argument '"@ + args[0] + "'. Use --help for usage."@)
    }
}

/// Whether a result is what a command line comes to.
pub open spec fn is_invocation(r: PocketResult<Invocation>, v: InvocationView) -> bool {
    match (r, v) {
        (Ok(Invocation::Help), InvocationView::Help) => true,
        (
            Ok(Invocation::Run(args)),
            InvocationView::Run { ssid, asset, period, mode, live_seconds },
        ) => {
            &&& args.ssid@ == ssid
            &&& args.asset@ == asset
            &&& args.period == period
            &&& args.mode == mode
            &&& args.live_seconds == live_seconds
        },
        (Err(e), InvocationView::Refused(text)) => is_general(e, text),
        _ => false,
    }
}

/// The mode with a name in small letters.
pub fn read_mode(name: &str) -> (r: Option<HistoryStreamMode>)
    ensures
        r == mode_named(name@),
{
    if same_text(name, "points") {
        Some(HistoryStreamMode::Points)
    } else if same_text(name, "ohlc") {
        Some(HistoryStreamMode::Ohlc)
    } else {
        None
    }
}

/// The argument behind a flag.
fn required_value(args: &Vec<String>, flag_at: usize, flag: &str) -> (r: PocketResult<String>)
    requires
        flag_at < args.len(),
    ensures
        match r {
            Ok(value) => flag_at + 1 < args.len() && value@ == args@[flag_at + 1]@,
            Err(e) => flag_at + 1 == args.len() && is_general(e, flag@ + " requires a value"@),
        },
{
    if flag_at < args.len() - 1 {
        Ok(args[flag_at + 1].clone())
    } else {
        let mut text = flag.to_owned();
        text.append(" requires a value");
        Err(PocketError::General(text))
    }
}

fn invalid(flag: &str, raw: &str, fault: &str) -> (r: PocketError)
    ensures
        is_general(r, "Invalid "@ + flag@ + " value '"@ + raw@ + "': "@ + fault@),
{
    let mut text = "Invalid ".to_owned();
    text.append(flag);
    text.append(" value '");
    text.append(raw);
    text.append("': ");
    text.append(fault);
    PocketError::General(text)
}

impl Args {
    /// Reads a command line, without the program's name. `ssid` is what the environment
    /// gives. The last of several values for one flag counts, and the first argument that
    /// cannot be read is the one that is refused.
    pub fn parse(ssid: Option<String>, args: &Vec<String>) -> (r: PocketResult<Invocation>)
        ensures
            is_invocation(r, invoked(default_settings(text_view(ssid)), texts(args@))),
    {
        let ghost words = texts(args@);
        let ghost whole = invoked(default_settings(text_view(ssid)), words);
        let mut session = ssid;
        let mut asset = DEFAULT_ASSET.to_owned();
        let mut period: u32 = DEFAULT_PERIOD;
        let mut mode = HistoryStreamMode::Points;
        let mut live_seconds: u64 = DEFAULT_LIVE_SECONDS;
        let mut at: usize = 0;
        proof {
            assert(words.skip(0) == words);
        }
        while at < args.len()
            invariant
                at <= args.len(),
                words == texts(args@),
                whole == invoked(default_settings(text_view(ssid)), words),
                whole == invoked(
                    SettingsView { ssid: text_view(session), asset: asset@, period, mode, live_seconds },
                    words.skip(at as int),
                ),
            decreases args.len() - at,
        {
            let arg = args[at].as_str();
            proof {
                let rest = words.skip(at as int);
                assert(rest[0] == args@[at as int]@);
                if at + 1 < args.len() {
                    assert(rest[1] == args@[at + 1]@);
                    assert(rest.skip(2) == words.skip(at + 2));
                } else {
                    assert(rest.skip(1) == words.skip(at + 1));
                }
            }
            if same_text(arg, "--ssid") {
                if at < args.len() - 1 {
                    session = Some(args[at + 1].clone());
                    at = at + 2;
                } else {
                    session = None;
                    at = at + 1;
                }
            } else if same_text(arg, "--asset") {
                match required_value(args, at, "--asset") {
                    Ok(value) => {
                        asset = value;
                    },
                    Err(e) => {
                        return Err(e);
                    },
                }
                at = at + 2;
            } else if same_text(arg, "--period") {
                match required_value(args, at, "--period") {
                    Ok(raw) => {
                        match parse_u32(raw.as_str()) {
                            Ok(value) => {
                                period = value;
                            },
                            Err(fault) => {
                                return Err(invalid("--period", raw.as_str(), fault.as_str()));
                            },
                        }
                    },
                    Err(e) => {
                        return Err(e);
                    },
                }
                at = at + 2;
            } else if same_text(arg, "--mode") {
                match required_value(args, at, "--mode") {
                    Ok(raw) => {
                        let name = to_lowercase(raw.as_str());
                        match read_mode(name.as_str()) {
                            Some(value) => {
                                mode = value;
                            },
                            None => {
                                return Err(
                                    PocketError::General(
                                        "--mode must be 'points' or 'ohlc'".to_owned(),
                                    ),
                                );
                            },
                        }
                    },
                    Err(e) => {
                        return Err(e);
                    },
                }
                at = at + 2;
            } else if same_text(arg, "--seconds") {
                match required_value(args, at, "--seconds") {
                    Ok(raw) => {
                        match parse_u64(raw.as_str()) {
                            Ok(value) => {
                                live_seconds = value;
                            },
                            Err(fault) => {
                                return Err(invalid("--seconds", raw.as_str(), fault.as_str()));
                            },
                        }
                    },
                    Err(e) => {
                        return Err(e);
                    },
                }
                at = at + 2;
            } else if same_text(arg, "--help") || same_text(arg, "-h") {
                return Ok(Invocation::Help);
            } else {
                let mut text = "Unknown argument '".to_owned();
                text.append(arg);
                text.append("'. Use --help for usage.");
                return Err(PocketError::General(text));
            }
        }
        match session {
            Some(ssid) => Ok(Invocation::Run(Args { ssid, asset, period, mode, live_seconds })),
            None => Err(
                PocketError::General(
                    "Missing SSID. Pass --ssid or set POCKET_OPTION_SSID.".to_owned(),
                ),
            ),
        }
    }
}

/// The address to connect to: the one that the session names, else the first that is known.
pub fn connection_url(current: Option<String>, known: &Vec<String>) -> (r: Option<String>)
    ensures
        match current {
            Some(url) => r == Some(url),
            None => text_view(r) == (if known.len() > 0 {
                Some(known@[0]@)
            } else {
                None
            }),
        },
{
    match current {
        Some(url) => Some(url),
        None => if known.len() > 0 {
            Some(known[0].clone())
        } else {
            None
        },
    }
}

/// The line that stands for a sent message, where it is a text or a binary message.
pub open spec fn frame_line(message: MessageView) -> Option<Seq<char>> {
    match message {
        MessageView::Text(text) => Some(text),
        MessageView::Binary(bytes) => Some("<binary:"@ + digits(bytes.len()) + " bytes>"@),
        _ => None,
    }
}

/// The line that stands for a sent message, where it is a text or a binary message.
pub fn outbound_frame(message: &Message) -> (r: Option<String>)
    ensures
        text_view(r) == frame_line(message@),
{
    match message {
        Message::Text(text) => Some(text.clone()),
        Message::Binary(bytes) => {
            let mut line = "<binary:".to_owned();
            line.append(number_text(bytes.len() as u64).as_str());
            line.append(" bytes>");
            Some(line)
        },
        _ => None,
    }
}

/// What comes of waiting for the next event of a stream.
#[derive(Debug)]
pub enum Awaited {
    Event,
    Failed(PocketError),
    Ended,
    TimedOut,
}

/// What a probe that reads a stream does next.
#[derive(Debug)]
pub enum DrainStep {
    /// Print the event that came, under this number.
    Print(usize),
    /// Stop reading, all being well.
    Stop,
    Fail(PocketError),
}

/// Reads the history of a stream: as many events as the history was seen to hold.
#[derive(Debug)]
pub struct BootstrapDrain {
    pub count: usize,
    pub expected: usize,
}

impl BootstrapDrain {
    pub fn new(expected: usize) -> (r: Self)
        ensures
            r == (BootstrapDrain { count: 0, expected }),
    {
        BootstrapDrain { count: 0, expected }
    }

    /// Whether all events have come.
    pub fn is_done(&self) -> (r: bool)
        ensures
            r == (self.count >= self.expected),
    {
        self.count >= self.expected
    }

    /// What to do with what came while events are still awaited.
    pub fn hear(&mut self, awaited: Awaited) -> (r: DrainStep)
        requires
            old(self).count < old(self).expected,
        ensures
            final(self).expected == old(self).expected,
            final(self).count == (if awaited is Event {
                old(self).count + 1
            } else {
                old(self).count as int
            }),
            match awaited {
                Awaited::Event => r == DrainStep::Print((old(self).count + 1) as usize),
                Awaited::Failed(e) => r == DrainStep::Fail(e),
                Awaited::Ended => r matches DrainStep::Fail(e) && is_general(
                    e,
                    "stream ended during bootstrap"@,
                ),
                Awaited::TimedOut => r matches DrainStep::Fail(e) && is_general(
                    e,
                    "timed out waiting for warm bootstrap event "@ + digits(
                        (old(self).count + 1) as nat,
                    ) + "/"@ + digits(old(self).expected as nat),
                ),
            },
    {
        match awaited {
            Awaited::Event => {
                self.count = self.count + 1;
                DrainStep::Print(self.count)
            },
            Awaited::Failed(e) => DrainStep::Fail(e),
            Awaited::Ended => DrainStep::Fail(
                PocketError::General("stream ended during bootstrap".to_owned()),
            ),
            Awaited::TimedOut => {
                let mut text = "timed out waiting for warm bootstrap event ".to_owned();
                text.append(number_text((self.count + 1) as u64).as_str());
                text.append("/");
                text.append(number_text(self.expected as u64).as_str());
                DrainStep::Fail(PocketError::General(text))
            },
        }
    }
}

/// Reads what a stream delivers while it lasts.
#[derive(Debug)]
pub struct LiveDrain {
    pub count: usize,
}

impl LiveDrain {
    pub fn new() -> (r: Self)
        ensures
            r.count == 0,
    {
        LiveDrain { count: 0 }
    }

    /// What to do with what came before the time was up.
    pub fn hear(&mut self, awaited: Awaited) -> (r: DrainStep)
        requires
            old(self).count < usize::MAX,
        ensures
            final(self).count == (if awaited is Event {
                old(self).count + 1
            } else {
                old(self).count as int
            }),
            match awaited {
                Awaited::Event => r == DrainStep::Print((old(self).count + 1) as usize),
                Awaited::Failed(e) => r == DrainStep::Fail(e),
                Awaited::Ended | Awaited::TimedOut => r == DrainStep::Stop,
            },
    {
        match awaited {
            Awaited::Event => {
                self.count = self.count + 1;
                DrainStep::Print(self.count)
            },
            Awaited::Failed(e) => DrainStep::Fail(e),
            Awaited::Ended => DrainStep::Stop,
            Awaited::TimedOut => DrainStep::Stop,
        }
    }
}

/// Whether a sent message only keeps the connection open.
pub open spec fn is_keepalive(frame: Seq<char>) -> bool {
    frame == "42[\"ps\"]"@ || frame == "3"@
}

/// Whether a sent message turns the chart.
pub open spec fn is_change_symbol(frame: Seq<char>) -> bool {
    occurs(frame, "[\\\"changeSymbol\\\""@) || occurs(frame, "[\"changeSymbol\""@)
}

/// Whether a sent message, other than to keep the connection open, subscribes to an asset.
pub open spec fn is_forbidden(frame: Seq<char>) -> bool {
    !is_keepalive(frame) && (occurs(frame, "subscribeSymbol"@) || occurs(frame, "subfor"@))
}

/// How many of the texts are of a kind.
pub open spec fn tally(frames: Seq<Seq<char>>, kind: spec_fn(Seq<char>) -> bool) -> nat {
    frames.filter(kind).len()
}

/// The sent messages, counted by kind.
#[derive(Clone, Copy, Debug, Eq, PartialEq, Structural)]
pub struct OutboundReport {
    pub change_symbol: usize,
    pub forbidden: usize,
    pub keepalive: usize,
}

pub open spec fn is_report(report: OutboundReport, frames: Seq<Seq<char>>) -> bool {
    &&& report.change_symbol == tally(frames, |f: Seq<char>| is_change_symbol(f))
    &&& report.forbidden == tally(frames, |f: Seq<char>| is_forbidden(f))
    &&& report.keepalive == tally(frames, |f: Seq<char>| is_keepalive(f))
}

proof fn lemma_tally_grows(frames: Seq<Seq<char>>, n: int, kind: spec_fn(Seq<char>) -> bool)
    requires
        0 <= n < frames.len(),
    ensures
        tally(frames.take(n), kind) <= n,
        tally(frames.take(n + 1), kind) == tally(frames.take(n), kind) + (if kind(frames[n]) {
            1nat
        } else {
            0nat
        }),
{
    assert(frames.take(n + 1).drop_last() == frames.take(n));
    frames.take(n).lemma_filter_len(kind);
    reveal(Seq::filter);
}

/// Counts the sent messages by kind.
pub fn count_outbound(frames: &Vec<String>) -> (r: OutboundReport)
    ensures
        is_report(r, texts(frames@)),
{
    let ghost all = texts(frames@);
    let mut r = OutboundReport { change_symbol: 0, forbidden: 0, keepalive: 0 };
    let mut i: usize = 0;
    proof {
        reveal(Seq::filter);
    }
    while i < frames.len()
        invariant
            i <= frames.len(),
            all == texts(frames@),
            is_report(r, all.take(i as int)),
        decreases frames.len() - i,
    {
        let frame = frames[i].as_str();
        proof {
            assert(all[i as int] == frame@);
            lemma_tally_grows(all, i as int, |f: Seq<char>| is_change_symbol(f));
            lemma_tally_grows(all, i as int, |f: Seq<char>| is_forbidden(f));
            lemma_tally_grows(all, i as int, |f: Seq<char>| is_keepalive(f));
        }
        if contains(frame, "[\\\"changeSymbol\\\"") || contains(frame, "[\"changeSymbol\"") {
            r.change_symbol = r.change_symbol + 1;
        }
        if same_text(frame, "42[\"ps\"]") || same_text(frame, "3") {
            r.keepalive = r.keepalive + 1;
        } else if contains(frame, "subscribeSymbol") || contains(frame, "subfor") {
            r.forbidden = r.forbidden + 1;
        }
        i = i + 1;
    }
    assert(all.take(all.len() as int) == all);
    r
}

/// Texts as `Vec<String>`'s `Debug` writes them.
pub uninterp spec fn listed(frames: Seq<Seq<char>>) -> Seq<char>;

/// The `Debug` text of a `Vec<String>`: `format!` with `{:?}`.
#[verifier::external_body]
fn list(frames: &Vec<String>) -> (r: String)
    ensures
        r@ == listed(texts(frames@)),
{
    format!("{frames:?}")
}

/// Whether the sent messages, but for those that keep the connection open, are one that
/// turns the chart, and none subscribes to an asset.
pub open spec fn only_change_symbol(frames: Seq<Seq<char>>) -> bool {
    &&& tally(frames, |f: Seq<char>| is_change_symbol(f)) == 1
    &&& tally(frames, |f: Seq<char>| is_forbidden(f)) == 0
    &&& frames.len() - tally(frames, |f: Seq<char>| is_keepalive(f)) == 1
}

/// Holds the sent messages to what the stream may send: one message that turns the chart.
pub fn assert_only_change_symbol(frames: &Vec<String>) -> (r: PocketResult<()>)
    ensures
        match r {
            Ok(()) => only_change_symbol(texts(frames@)),
            Err(e) => !only_change_symbol(texts(frames@)) && is_general(
                e,
                "Expected exactly one outbound changeSymbol frame and no subscribeSymbol/subfor frames after ignoring keepalive, got "@
                    + listed(texts(frames@)),
            ),
        },
{
    let report = count_outbound(frames);
    proof {
        texts(frames@).lemma_filter_len(|f: Seq<char>| is_keepalive(f));
    }
    if report.change_symbol != 1 || report.forbidden != 0 || frames.len() - report.keepalive != 1 {
        let mut text =
            "Expected exactly one outbound changeSymbol frame and no subscribeSymbol/subfor frames after ignoring keepalive, got ".to_owned();
        text.append(list(frames).as_str());
        return Err(PocketError::General(text));
    }
    Ok(())
}

/// The message that a new stream sends is the one that is allowed, together with any that
/// keep the connection open: unless the name of the asset itself reads as a subscription.
pub proof fn law_opening_message_passes(
    asset: Seq<char>,
    period: u32,
    before: Seq<Seq<char>>,
    after: Seq<Seq<char>>,
)
    requires
        !occurs(change_symbol_text(asset, period), "subscribeSymbol"@),
        !occurs(change_symbol_text(asset, period), "subfor"@),
        forall|i: int| 0 <= i < before.len() ==> is_keepalive(#[trigger] before[i]),
        forall|i: int| 0 <= i < after.len() ==> is_keepalive(#[trigger] after[i]),
    ensures
        only_change_symbol(before.push(change_symbol_text(asset, period)) + after),
{
    let frame = change_symbol_text(asset, period);
    let change = |f: Seq<char>| is_change_symbol(f);
    let forbidden = |f: Seq<char>| is_forbidden(f);
    let keepalive = |f: Seq<char>| is_keepalive(f);
    reveal_strlit("42[\"changeSymbol\",{\"asset\":");
    reveal_strlit("[\"changeSymbol\"");
    reveal_strlit("42[\"ps\"]");
    reveal_strlit("3");
    assert(occurs_at(frame, "[\"changeSymbol\""@, 2)) by {
        assert(frame.subrange(2, 17) =~= "[\"changeSymbol\""@);
    }
    assert(!is_keepalive(frame)) by {
        assert(frame[3] != "42[\"ps\"]"@[3] || frame[4] != "42[\"ps\"]"@[4]);
        assert(frame.len() > 1);
    }
    assert(seq![frame].filter(change) == seq![frame] && seq![frame].filter(forbidden).len() == 0
        && seq![frame].filter(keepalive).len() == 0) by {
        assert(seq![frame].drop_last() =~= Seq::<Seq<char>>::empty());
        reveal_with_fuel(Seq::filter, 2);
    }
    lemma_keepalive_tallies(before);
    lemma_keepalive_tallies(after);
    let all = before + seq![frame] + after;
    assert(before.push(frame) + after =~= all);
    Seq::filter_distributes_over_add(before + seq![frame], after, change);
    Seq::filter_distributes_over_add(before + seq![frame], after, forbidden);
    Seq::filter_distributes_over_add(before + seq![frame], after, keepalive);
    Seq::filter_distributes_over_add(before, seq![frame], change);
    Seq::filter_distributes_over_add(before, seq![frame], forbidden);
    Seq::filter_distributes_over_add(before, seq![frame], keepalive);
}

proof fn lemma_keepalive_tallies(frames: Seq<Seq<char>>)
    requires
        forall|i: int| 0 <= i < frames.len() ==> is_keepalive(#[trigger] frames[i]),
    ensures
        tally(frames, |f: Seq<char>| is_change_symbol(f)) == 0,
        tally(frames, |f: Seq<char>| is_forbidden(f)) == 0,
        tally(frames, |f: Seq<char>| is_keepalive(f)) == frames.len(),
    decreases frames.len(),
{
    reveal(Seq::filter);
    if frames.len() > 0 {
        lemma_keepalive_tallies(frames.drop_last());
        let last = frames.last();
        assert(is_keepalive(last));
        assert(!is_change_symbol(last)) by {
            reveal_strlit("[\"changeSymbol\"");
            reveal_strlit("[\\\"changeSymbol\\\"");
            reveal_strlit("42[\"ps\"]");
            reveal_strlit("3");
        }
    }
}

} // verus!
