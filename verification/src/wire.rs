//! The discovery protocol: one datagram announces one node.
//!
//! A datagram is ASCII text of at most 1024 bytes, of the form
//! `DISCOVER,<service class>,<node id>,<service URL>`. White space at its
//! two ends does not count. The first three fields hold no comma; the URL
//! is whatever follows the third comma.

use vstd::prelude::*;
use crate::seqs::{first_where, lemma_first_where_is};
use crate::text::{ascii_text, is_ascii_bytes, range_is, text_of, trim, trim_bounds};

verus! {

/// The longest datagram that the protocol allows, in bytes.
pub const MAX_DATAGRAM_LEN: usize = 1024;

/// A pool of interchangeable nodes.
#[derive(Clone, Copy, Debug, PartialEq, Eq, Structural)]
pub enum ServiceClass {
    LmStudio,
    Ollama,
}

impl ServiceClass {
    /// The name of the class in a datagram.
    pub open spec fn wire_name(self) -> Seq<char> {
        match self {
            ServiceClass::LmStudio => "lmstudio"@,
            ServiceClass::Ollama => "ollama"@,
        }
    }

    /// The name of the class as people read it.
    pub open spec fn display_name(self) -> Seq<char> {
        match self {
            ServiceClass::LmStudio => "LM Studio"@,
            ServiceClass::Ollama => "Ollama"@,
        }
    }

    /// The name of the class in a datagram.
    pub fn name(self) -> (name: &'static str)
        ensures
            name@ == self.wire_name(),
    {
        match self {
            ServiceClass::LmStudio => "lmstudio",
            ServiceClass::Ollama => "ollama",
        }
    }

    /// The name of the class as people read it.
    pub fn label(self) -> (label: &'static str)
        ensures
            label@ == self.display_name(),
    {
        match self {
            ServiceClass::LmStudio => "LM Studio",
            ServiceClass::Ollama => "Ollama",
        }
    }
}

/// The class that a datagram means by `name`.
pub open spec fn class_named(name: Seq<char>) -> Option<ServiceClass> {
    if name == "lmstudio"@ {
        Some(ServiceClass::LmStudio)
    } else if name == "ollama"@ {
        Some(ServiceClass::Ollama)
    } else {
        None
    }
}

/// What one datagram announces.
#[derive(Debug)]
pub struct Announcement {
    pub class: ServiceClass,
    pub node_id: String,
    pub service_url: String,
}

/// What an [`Announcement`] holds, as a mathematical value.
pub struct AnnouncementView {
    pub class: ServiceClass,
    pub node_id: Seq<char>,
    pub service_url: Seq<char>,
}

impl View for Announcement {
    type V = AnnouncementView;

    open spec fn view(&self) -> AnnouncementView {
        AnnouncementView {
            class: self.class,
            node_id: self.node_id@,
            service_url: self.service_url@,
        }
    }
}

/// Why a datagram announces nothing.
#[derive(Clone, Copy, Debug, PartialEq, Eq, Structural)]
pub enum DatagramError {
    /// It is longer than [`MAX_DATAGRAM_LEN`].
    TooLong,
    /// It holds a byte that is no ASCII code.
    NotAscii,
    /// It has fewer than four fields.
    FieldCount,
    /// Its first field is not `DISCOVER`.
    MissingPrefix,
    /// Its second field names no service class.
    UnknownService,
    /// Its node identifier is empty.
    EmptyNodeId,
}

/// The test for the character that parts the fields.
pub open spec fn comma() -> spec_fn(char) -> bool {
    |c: char| c == ','
}

/// The text before the first comma and the text after it, where there is
/// a comma.
pub open spec fn split_once(s: Seq<char>) -> Option<(Seq<char>, Seq<char>)> {
    let c = first_where(s, comma());
    if c < s.len() {
        Some((s.take(c), s.skip(c + 1)))
    } else {
        None
    }
}

/// The four fields of a datagram's text, where it has that many.
pub open spec fn fields(s: Seq<char>) -> Option<(Seq<char>, Seq<char>, Seq<char>, Seq<char>)> {
    match split_once(s) {
        None => None,
        Some((tag, after_tag)) => match split_once(after_tag) {
            None => None,
            Some((class, after_class)) => match split_once(after_class) {
                None => None,
                Some((node_id, service_url)) => Some((tag, class, node_id, service_url)),
            },
        },
    }
}

/// What a datagram's text announces, white space at its ends taken off.
pub open spec fn parse_text(s: Seq<char>) -> Result<AnnouncementView, DatagramError> {
    match fields(s) {
        None => Err(DatagramError::FieldCount),
        Some((tag, class, node_id, service_url)) => if tag != "DISCOVER"@ {
            Err(DatagramError::MissingPrefix)
        } else {
            match class_named(class) {
                None => Err(DatagramError::UnknownService),
                Some(class) => if node_id.len() == 0 {
                    Err(DatagramError::EmptyNodeId)
                } else {
                    Ok(AnnouncementView { class, node_id, service_url })
                },
            }
        },
    }
}

/// What a datagram announces.
pub open spec fn parse_spec(datagram: Seq<u8>) -> Result<AnnouncementView, DatagramError> {
    if datagram.len() > MAX_DATAGRAM_LEN {
        Err(DatagramError::TooLong)
    } else if !is_ascii_bytes(datagram) {
        Err(DatagramError::NotAscii)
    } else {
        parse_text(trim(ascii_text(datagram)))
    }
}

/// The text of the datagram that announces the node `node_id` of `class`
/// at `service_url`.
pub open spec fn wire_text(class: ServiceClass, node_id: Seq<char>, service_url: Seq<char>) -> Seq<
    char,
> {
    "DISCOVER"@ + seq![','] + class.wire_name() + seq![','] + node_id + seq![','] + service_url
}

/// The view of what a parser returns.
pub open spec fn parsed_view(parsed: Result<Announcement, DatagramError>) -> Result<
    AnnouncementView,
    DatagramError,
> {
    match parsed {
        Ok(a) => Ok(a@),
        Err(e) => Err(e),
    }
}

/// Tells whether every byte of `data` is an ASCII code.
pub fn all_ascii(data: &[u8]) -> (ascii: bool)
    ensures
        ascii == is_ascii_bytes(data@),
{
    let mut i: usize = 0;
    while i < data.len()
        invariant
            i <= data.len(),
            forall|j: int| 0 <= j < i ==> #[trigger] data@[j] < 128,
        decreases data.len() - i,
    {
        if data[i] >= 128 {
            return false;
        }
        i += 1;
    }
    true
}

/// The index of the first comma of `data` from `from` up to `to`, or `to`
/// where there is none.
fn find_comma(data: &[u8], from: usize, to: usize) -> (at: usize)
    requires
        from <= to <= data@.len(),
    ensures
        from <= at <= to,
        at - from == first_where(ascii_text(data@).subrange(from as int, to as int), comma()),
{
    let ghost part = ascii_text(data@).subrange(from as int, to as int);
    let mut i: usize = from;
    while i < to
        invariant
            from <= i <= to <= data@.len(),
            part == ascii_text(data@).subrange(from as int, to as int),
            forall|j: int| 0 <= j < i - from ==> !comma()(#[trigger] part[j]),
        decreases to - i,
    {
        if data[i] == 44 {
            assert(part[i - from] == ',');
            proof {
                lemma_first_where_is(part, comma(), i - from);
            }
            return i;
        }
        assert(part[i - from] != ',');
        i += 1;
    }
    proof {
        lemma_first_where_is(part, comma(), i - from);
    }
    i
}

/// Reads one datagram. White space at its two ends is passed over; what is
/// left must be `DISCOVER`, the name of a service class, a node identifier
/// that is not empty, and a URL, with a comma after each but the last.
pub fn parse_announcement(datagram: &[u8]) -> (parsed: Result<Announcement, DatagramError>)
    ensures
        parsed_view(parsed) == parse_spec(datagram@),
{
    if datagram.len() > MAX_DATAGRAM_LEN {
        return Err(DatagramError::TooLong);
    }
    if !all_ascii(datagram) {
        return Err(DatagramError::NotAscii);
    }
    let ghost text = ascii_text(datagram@);
    let (start, end) = trim_bounds(datagram);
    let ghost body = text.subrange(start as int, end as int);
    let c1 = find_comma(datagram, start, end);
    if c1 >= end {
        return Err(DatagramError::FieldCount);
    }
    assert(body.take(c1 - start) =~= text.subrange(start as int, c1 as int));
    assert(body.skip(c1 - start + 1) =~= text.subrange(c1 + 1, end as int));
    let c2 = find_comma(datagram, c1 + 1, end);
    if c2 >= end {
        return Err(DatagramError::FieldCount);
    }
    let ghost after_tag = text.subrange(c1 + 1, end as int);
    assert(after_tag.take(c2 - (c1 + 1)) =~= text.subrange(c1 + 1, c2 as int));
    assert(after_tag.skip(c2 - (c1 + 1) + 1) =~= text.subrange(c2 + 1, end as int));
    let c3 = find_comma(datagram, c2 + 1, end);
    if c3 >= end {
        return Err(DatagramError::FieldCount);
    }
    let ghost after_class = text.subrange(c2 + 1, end as int);
    assert(after_class.take(c3 - (c2 + 1)) =~= text.subrange(c2 + 1, c3 as int));
    assert(after_class.skip(c3 - (c2 + 1) + 1) =~= text.subrange(c3 + 1, end as int));
    assert(fields(body) == Some(
        (
            text.subrange(start as int, c1 as int),
            text.subrange(c1 + 1, c2 as int),
            text.subrange(c2 + 1, c3 as int),
            text.subrange(c3 + 1, end as int),
        ),
    ));
    if !range_is(datagram, start, c1, "DISCOVER") {
        return Err(DatagramError::MissingPrefix);
    }
    let class = if range_is(datagram, c1 + 1, c2, "lmstudio") {
        ServiceClass::LmStudio
    } else if range_is(datagram, c1 + 1, c2, "ollama") {
        ServiceClass::Ollama
    } else {
        return Err(DatagramError::UnknownService);
    };
    if c3 == c2 + 1 {
        return Err(DatagramError::EmptyNodeId);
    }
    let node_id = text_of(datagram, c2 + 1, c3);
    let service_url = text_of(datagram, c3 + 1, end);
    Ok(Announcement { class, node_id, service_url })
}

/// Writes the text of the datagram that announces the node `node_id` of
/// `class` at `service_url`.
pub fn encode_announcement(class: ServiceClass, node_id: &str, service_url: &str) -> (text: String)
    ensures
        text@ == wire_text(class, node_id@, service_url@),
{
    let mut text = "DISCOVER".to_owned();
    text.push(',');
    text.append(class.name());
    text.push(',');
    text.append(node_id);
    text.push(',');
    text.append(service_url);
    assert(text@ =~= wire_text(class, node_id@, service_url@));
    text
}

} // verus!
