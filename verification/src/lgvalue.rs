//! A value answered in the format the caller asks for, as a one-chunk
//! stream.
use vstd::prelude::*;

verus! {

/// A value could not be written in the asked format.
#[derive(Debug, Clone, Copy, PartialEq, Eq, Structural)]
pub struct LGValueError;

/// The formats a value is written in.
#[derive(Debug, Clone, Copy, PartialEq, Eq, Structural)]
pub enum ValueFormat {
    Json,
    Yaml,
    Xml,
    MsgPack,
}

/// The format named by a media type's name: `json`, `yaml` or `x-yaml`,
/// `xml`, `msgpack`.
pub open spec fn value_format_of(name: Seq<char>) -> Option<ValueFormat> {
    if name == "json"@ {
        Some(ValueFormat::Json)
    } else if name == "yaml"@ || name == "x-yaml"@ {
        Some(ValueFormat::Yaml)
    } else if name == "xml"@ {
        Some(ValueFormat::Xml)
    } else if name == "msgpack"@ {
        Some(ValueFormat::MsgPack)
    } else {
        None
    }
}

/// The format a media type's name asks for, if it names one.
pub fn value_format(name: &str) -> (r: Option<ValueFormat>)
    ensures
        r == value_format_of(name@),
{
    let n = String::from_str(name);
    if n == String::from_str("json") {
        Some(ValueFormat::Json)
    } else if n == String::from_str("yaml") || n == String::from_str("x-yaml") {
        Some(ValueFormat::Yaml)
    } else if n == String::from_str("xml") {
        Some(ValueFormat::Xml)
    } else if n == String::from_str("msgpack") {
        Some(ValueFormat::MsgPack)
    } else {
        None
    }
}

/// The state of a value's stream: whether its one chunk has gone out.
pub struct ValueStream {
    pub eof: bool,
}

impl ValueStream {
    /// Polls the stream: the first poll hands out the value's bytes (`true`)
    /// and ends the stream; every later poll finds it ended (`false`).
    pub fn poll_next(&mut self) -> (r: bool)
        ensures
            r == !old(self).eof,
            final(self).eof,
    {
        if !self.eof {
            self.eof = true;
            true
        } else {
            false
        }
    }
}

} // verus!
