//! The message argument: the rest of the command text, at most 256 bytes,
//! with the selectors in it (`Hello @p`) found where the source may use them.

use vstd::prelude::*;
use vstd::utf8::*;
use crate::text::{utf8, str_eq, push_str};
use crate::chat_component::{Component, ComponentView, TranslationTable, ResolutionContext, plain};
use crate::string_reader::{StringReaderModel, advanced, selector_token_end, lemma_selector_token_end};
use crate::command_selector::{Selector, SelectorError, SelectorView, ErrorView, selector_read};
use crate::command_misc_argument_audits::{ArgumentTypeModel, SignedArgumentModel};

verus! {

broadcast use vstd::utf8::encode_utf8_valid_utf8, vstd::utf8::encode_utf8_decode_utf8;

/// The longest message, in bytes.
pub const MAX_LENGTH: usize = 256;

#[derive(Debug, Clone, PartialEq, Eq)]
pub struct MessageArgumentModel;

impl ArgumentTypeModel for MessageArgumentModel {
    type Output = MessageModel;
}

impl SignedArgumentModel for MessageArgumentModel {
}

#[derive(Debug, Clone, PartialEq, Eq)]
pub enum MessageArgumentError {
    TooLong { length: usize, max: usize },
    Selector(SelectorError),
    MissingSelectorType,
    UnknownSelectorType,
    SelectorsNotAllowed,
    MissingArgument,
}

pub enum MessageErrorView {
    TooLong { length: usize, max: usize },
    Selector(ErrorView),
    MissingSelectorType,
    UnknownSelectorType,
    SelectorsNotAllowed,
    MissingArgument,
}

impl MessageArgumentError {
    pub open spec fn view(&self) -> MessageErrorView {
        match self {
            MessageArgumentError::TooLong { length, max } => MessageErrorView::TooLong { length: *length, max: *max },
            MessageArgumentError::Selector(e) => MessageErrorView::Selector(e.view()),
            MessageArgumentError::MissingSelectorType => MessageErrorView::MissingSelectorType,
            MessageArgumentError::UnknownSelectorType => MessageErrorView::UnknownSelectorType,
            MessageArgumentError::SelectorsNotAllowed => MessageErrorView::SelectorsNotAllowed,
            MessageArgumentError::MissingArgument => MessageErrorView::MissingArgument,
        }
    }
}

/// A selector found in a message: where it starts and ends, relative to the
/// start of the message, and what it reads as.
#[derive(Debug, PartialEq, Eq)]
pub struct MessagePartModel {
    start: usize,
    end: usize,
    selector: Selector,
}

pub struct PartView {
    pub start: int,
    pub end: int,
    pub selector: SelectorView,
}

impl MessagePartModel {
    pub closed spec fn view(&self) -> PartView {
        PartView { start: self.start as int, end: self.end as int, selector: self.selector.view() }
    }

    pub fn start(&self) -> (r: usize)
        ensures
            r == self@.start,
    {
        self.start
    }

    pub fn end(&self) -> (r: usize)
        ensures
            r == self@.end,
    {
        self.end
    }

    pub fn selector(&self) -> (r: &Selector)
        ensures
            r.view() == self@.selector,
    {
        &self.selector
    }
}

/// A message: its text and the selectors found in it.
#[derive(Debug, PartialEq, Eq)]
pub struct MessageModel {
    text: String,
    parts: Vec<MessagePartModel>,
}

pub open spec fn part_views(ps: Seq<MessagePartModel>) -> Seq<PartView> {
    ps.map_values(|p: MessagePartModel| p@)
}

impl MessageModel {
    pub closed spec fn text_view(&self) -> Seq<char> {
        self.text@
    }

    pub closed spec fn parts_view(&self) -> Seq<PartView> {
        part_views(self.parts@)
    }

    pub fn new(text: &str) -> (r: Self)
        ensures
            r.text_view() == text@,
            r.parts_view().len() == 0,
    {
        let parts: Vec<MessagePartModel> = Vec::new();
        proof {
            assert(part_views(parts@).len() == 0);
        }
        MessageModel { text: text.to_owned(), parts }
    }

    pub fn text(&self) -> (r: &str)
        ensures
            r@ == self.text_view(),
    {
        self.text.as_str()
    }

    pub fn parts(&self) -> (r: &[MessagePartModel])
        ensures
            part_views(r@) == self.parts_view(),
    {
        self.parts.as_slice()
    }
}

/// What the scan of a message from byte `i` gives: the selectors found from
/// there on, the error that stops it and where the reader stands then, or
/// that a selector head is followed by a byte that does not start a
/// character on its own (the text cannot be cut there).
pub enum MessageScan {
    Done(Seq<PartView>),
    Fail(MessageErrorView, int),
    Uncut,
}

/// The heads that are not selectors and are read as plain text.
pub open spec fn skipped_head(token: Seq<char>) -> Option<MessageErrorView> {
    if token == "@"@ {
        Some(MessageErrorView::MissingSelectorType)
    } else if token == "@x"@ || token == "@z"@ || token == "@q"@ {
        Some(MessageErrorView::UnknownSelectorType)
    } else {
        None
    }
}

/// The selectors of a message, found from byte `i`; `offset` is where the message starts.
pub open spec fn message_scan(b: Seq<u8>, i: int, offset: int) -> MessageScan
    decreases b.len() - i,
{
    if i < 0 || i >= b.len() {
        MessageScan::Done(seq![])
    } else if b[i] != 64u8 {
        message_scan(b, i + 1, offset)
    } else if i + 1 < b.len() && b[i + 1] >= 0x80 {
        MessageScan::Uncut
    } else {
        let e = selector_token_end(b, i);
        let token = decode_utf8(b.subrange(i, e));
        if skipped_head(token) is Some {
            message_scan(b, i + 1, offset)
        } else {
            match selector_read(token) {
                Err(er) => MessageScan::Fail(MessageErrorView::Selector(er), e),
                Ok(s) => if i < e && e <= b.len() {
                    match message_scan(b, e, offset) {
                        MessageScan::Done(ps) => MessageScan::Done(seq![PartView { start: i - offset, end: e - offset, selector: s }] + ps),
                        other => other,
                    }
                } else {
                    MessageScan::Done(seq![])
                },
            }
        }
    }
}

/// The parts found so far, put before what the rest of the scan gives.
pub open spec fn prepend(done: Seq<PartView>, r: MessageScan) -> MessageScan {
    match r {
        MessageScan::Done(ps) => MessageScan::Done(done + ps),
        other => other,
    }
}

impl MessageArgumentModel {
    pub fn message() -> (r: Self) {
        MessageArgumentModel
    }

    pub fn parse(&self, reader: &mut StringReaderModel, allow_selectors: bool) -> (r: Result<MessageModel, MessageArgumentError>)
        requires
            old(reader).at_cut(),
            allow_selectors ==> !(message_scan(old(reader).bytes(), old(reader).pos(), old(reader).pos()) is Uncut),
        ensures
            final(reader).text() == old(reader).text(),
            final(reader).bytes() == old(reader).bytes(),
            message_parsed(old(reader).bytes(), old(reader).pos(), allow_selectors, r, final(reader).pos()),
    {
        MessageModel::parse_text(reader, allow_selectors)
    }

    pub fn examples(&self) -> (r: [&'static str; 4])
        ensures
            r@[0]@ == "Hello world!"@,
            r@[1]@ == "foo"@,
            r@[2]@ == "@e"@,
            r@[3]@ == "Hello @p :)"@,
    {
        ["Hello world!", "foo", "@e", "Hello @p :)"]
    }
}

/// The outcome of reading a message at byte `p`: the result and where the
/// reader is left.
pub open spec fn message_parsed(b: Seq<u8>, p: int, allow_selectors: bool, r: Result<MessageModel, MessageArgumentError>, cursor: int) -> bool {
    if b.len() - p > MAX_LENGTH {
        r matches Err(e) && e.view() == (MessageErrorView::TooLong { length: (b.len() - p) as usize, max: MAX_LENGTH }) && cursor == p
    } else if !allow_selectors {
        r matches Ok(m) && utf8(m.text_view()) == b.subrange(p, b.len() as int) && m.parts_view().len() == 0 && cursor == b.len()
    } else {
        match message_scan(b, p, p) {
            MessageScan::Done(ps) => r matches Ok(m) && utf8(m.text_view()) == b.subrange(p, b.len() as int)
                && m.parts_view() == ps && cursor == b.len(),
            MessageScan::Fail(e, c) => r matches Err(x) && x.view() == e && cursor == c,
            MessageScan::Uncut => false,
        }
    }
}

impl MessageModel {
    /// Reads the rest of the text as a message, finding the selectors in it
    /// where they may be used; `@`, `@x`, `@z` and `@q` are read as text.
    fn parse_text(reader: &mut StringReaderModel, allow_selectors: bool) -> (r: Result<Self, MessageArgumentError>)
        requires
            old(reader).at_cut(),
            allow_selectors ==> !(message_scan(old(reader).bytes(), old(reader).pos(), old(reader).pos()) is Uncut),
        ensures
            final(reader).text() == old(reader).text(),
            final(reader).bytes() == old(reader).bytes(),
            message_parsed(old(reader).bytes(), old(reader).pos(), allow_selectors, r, final(reader).pos()),
    {
        let ghost b = reader.bytes();
        proof {
            reader.lemma_bytes();
        }
        let total = reader.total_len();
        let offset = reader.cursor();
        if total - offset > MAX_LENGTH {
            return Err(MessageArgumentError::TooLong { length: total - offset, max: MAX_LENGTH });
        }
        let text = reader.slice_string(offset, total);
        if !allow_selectors {
            reader.set_cursor(total);
            let parts: Vec<MessagePartModel> = Vec::new();
            proof {
                assert(part_views(parts@).len() == 0);
            }
            return Ok(MessageModel { text, parts });
        }
        let mut parts: Vec<MessagePartModel> = Vec::new();
        proof {
            assert(part_views(parts@) == Seq::<PartView>::empty());
            assert(prepend(Seq::<PartView>::empty(), message_scan(b, offset as int, offset as int))
                == message_scan(b, offset as int, offset as int)) by {
                match message_scan(b, offset as int, offset as int) {
                    MessageScan::Done(ps) => {
                        assert(Seq::<PartView>::empty() + ps == ps);
                    },
                    _ => {},
                }
            }
        }
        while reader.can_read()
            invariant
                reader.text() == old(reader).text(),
                reader.bytes() == b,
                b.len() == total,
                offset <= reader.pos() <= b.len(),
                message_scan(b, offset as int, offset as int) == prepend(part_views(parts@), message_scan(b, reader.pos(), offset as int)),
                !(message_scan(b, offset as int, offset as int) is Uncut),
                utf8(text@) == b.subrange(offset as int, b.len() as int),
            decreases b.len() - reader.pos(),
        {
            let i = reader.cursor();
            if reader.peek_byte() != 64 {
                reader.skip();
                continue;
            }
            proof {
                crate::string_reader::lemma_cut_at_ascii(b, i as int);
                assert(!(message_scan(b, i as int, offset as int) is Uncut));
            }
            let token = reader.read_argument_token();
            proof {
                assert(decode_utf8(utf8(token@)) == token@);
                lemma_selector_token_end(b, i as int);
            }
            if str_eq(token.as_str(), "@") {
                reader.set_cursor(i + 1);
                continue;
            }
            if str_eq(token.as_str(), "@x") || str_eq(token.as_str(), "@z") || str_eq(token.as_str(), "@q") {
                reader.set_cursor(i + 1);
                continue;
            }
            match Selector::parse(token.as_str()) {
                Ok(selector) => {
                    let e = reader.cursor();
                    let part = MessagePartModel { start: i - offset, end: e - offset, selector };
                    proof {
                        assert(part_views(parts@.push(part)) == part_views(parts@).push(part@));
                        match message_scan(b, e as int, offset as int) {
                            MessageScan::Done(ps) => {
                                assert(part_views(parts@) + (seq![part@] + ps) == part_views(parts@.push(part)) + ps);
                            },
                            _ => {},
                        }
                    }
                    parts.push(part);
                },
                Err(er) => {
                    return Err(MessageArgumentError::Selector(er));
                },
            }
        }
        proof {
            assert(part_views(parts@) + Seq::<PartView>::empty() == part_views(parts@));
        }
        Ok(MessageModel { text, parts })
    }
}


/// The selectors found in a message lie within it, in order, without
/// overlapping: each starts before it ends, and starts no earlier than the
/// one before it ends.
pub proof fn lemma_parts_in_order(b: Seq<u8>, i: int, offset: int)
    requires
        0 <= i <= b.len(),
    ensures
        message_scan(b, i, offset) matches MessageScan::Done(ps) ==> ({
            &&& forall|k: int| 0 <= k < ps.len() ==> i - offset <= #[trigger] ps[k].start < ps[k].end <= b.len() - offset
            &&& forall|k: int| 0 <= k < ps.len() - 1 ==> #[trigger] ps[k].end <= ps[k + 1].start
        }),
    decreases b.len() - i,
{
    if i < b.len() {
        if b[i] != 64u8 {
            lemma_parts_in_order(b, i + 1, offset);
        } else if !(i + 1 < b.len() && b[i + 1] >= 0x80) {
            let e = selector_token_end(b, i);
            let token = decode_utf8(b.subrange(i, e));
            lemma_selector_token_end(b, i);
            if skipped_head(token) is Some {
                lemma_parts_in_order(b, i + 1, offset);
            } else {
                match selector_read(token) {
                    Ok(s) => {
                        lemma_parts_in_order(b, e, offset);
                        match message_scan(b, e, offset) {
                            MessageScan::Done(rest) => {
                                let ps = seq![PartView { start: i - offset, end: e - offset, selector: s }] + rest;
                                assert forall|k: int| 0 <= k < ps.len() implies i - offset <= #[trigger] ps[k].start < ps[k].end <= b.len() - offset by {
                                    if k > 0 {
                                        assert(ps[k] == rest[k - 1]);
                                    }
                                }
                                assert forall|k: int| 0 <= k < ps.len() - 1 implies #[trigger] ps[k].end <= ps[k + 1].start by {
                                    assert(ps[k + 1] == rest[k]);
                                    if k > 0 {
                                        assert(ps[k] == rest[k - 1]);
                                    }
                                }
                            },
                            _ => {},
                        }
                    },
                    Err(_) => {},
                }
            }
        }
    }
}
/// How a chat message is dressed before it is sent: as it is, or its plain
/// text between a prefix and a suffix.
#[derive(Debug, Clone, PartialEq, Eq)]
pub enum ChatDecoratorModel {
    Plain,
    Wrapping { prefix: String, suffix: String },
}

impl Default for ChatDecoratorModel {
    fn default() -> (r: Self)
        ensures
            r is Plain,
    {
        ChatDecoratorModel::Plain
    }
}

impl ChatDecoratorModel {
    pub fn wrapping(prefix: &str, suffix: &str) -> (r: Self)
        ensures
            r matches ChatDecoratorModel::Wrapping { prefix: p, suffix: s } && p@ == prefix@ && s@ == suffix@,
    {
        ChatDecoratorModel::Wrapping { prefix: prefix.to_owned(), suffix: suffix.to_owned() }
    }

    /// The component as it is, or a literal of the prefix, the component's
    /// plain text (with no translations loaded) and the suffix.
    pub fn decorate(&self, component: &Component) -> (r: Component)
        ensures
            match self {
                ChatDecoratorModel::Plain => r.deep() == component.deep(),
                ChatDecoratorModel::Wrapping { prefix, suffix } => exists|t: TranslationTable|
                    t.patterns_view().entries().len() == 0
                    && #[trigger] r.deep() == ComponentView::Literal(prefix@ + plain(*component, t) + suffix@),
            },
    {
        match self {
            ChatDecoratorModel::Plain => component.copy(),
            ChatDecoratorModel::Wrapping { prefix, suffix } => {
                let table = TranslationTable::default();
                let body = component.render_plain(&table, &ResolutionContext);
                let mut text = prefix.clone();
                push_str(&mut text, body.as_str());
                push_str(&mut text, suffix.as_str());
                let r = Component::literal(text.as_str());
                assert(r.deep() == ComponentView::Literal(prefix@ + plain(*component, table) + suffix@));
                r
            },
        }
    }
}

} // verus!
