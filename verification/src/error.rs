//! What the gateway answers with when something goes wrong: the message for
//! a status, and the format of the error body the caller accepts.
use vstd::prelude::*;

verus! {

/// The message shown for an error status, where the gateway has its own
/// (otherwise the underlying error speaks for itself).
pub open spec fn gateway_message_of(status: u16) -> Option<Seq<char>> {
    if status == 400 {
        Some("Oh, sorry something wrong with your provided information"@)
    } else if status == 404 {
        Some("Oh, that thing you are looking for is not found"@)
    } else if status == 500 {
        Some("Oops, something went wrong"@)
    } else if status == 501 {
        Some("Oh, sorry we don't have a service with that name"@)
    } else if status == 504 {
        Some("Oops, something wrong with the service that you looking for"@)
    } else {
        None
    }
}

/// The gateway's own message for an error status, if it has one.
pub fn gateway_message(status: u16) -> (r: Option<&'static str>)
    ensures
        match r {
            Some(m) => gateway_message_of(status) == Some(m@),
            None => gateway_message_of(status) is None,
        },
{
    if status == 400 {
        Some("Oh, sorry something wrong with your provided information")
    } else if status == 404 {
        Some("Oh, that thing you are looking for is not found")
    } else if status == 500 {
        Some("Oops, something went wrong")
    } else if status == 501 {
        Some("Oh, sorry we don't have a service with that name")
    } else if status == 504 {
        Some("Oops, something wrong with the service that you looking for")
    } else {
        None
    }
}

/// The format of an error body.
#[derive(Clone, Copy, Debug, PartialEq, Eq, Structural)]
pub enum BodyFormat {
    Ron,
    Yaml,
    Json,
}

/// The format an accepted media type asks for, if it is one the gateway
/// writes besides JSON.
pub open spec fn format_of(item: Seq<char>) -> Option<BodyFormat> {
    if item == "application/ron"@ {
        Some(BodyFormat::Ron)
    } else if item == "application/yaml"@ {
        Some(BodyFormat::Yaml)
    } else {
        None
    }
}

/// The format of the error body for the media types the caller accepts, in
/// the order given: the first one that asks for RON or YAML decides, and
/// JSON is written otherwise.
pub open spec fn negotiated(items: Seq<Seq<char>>) -> BodyFormat
    decreases items.len(),
{
    if items.len() == 0 {
        BodyFormat::Json
    } else {
        match format_of(items[0]) {
            Some(f) => f,
            None => negotiated(items.drop_first()),
        }
    }
}

/// Chooses the format of an error body; see [`negotiated`].
pub fn negotiate(accept: &Vec<String>) -> (r: BodyFormat)
    ensures
        r == negotiated(accept@.map_values(|s: String| s@)),
{
    let ghost items = accept@.map_values(|s: String| s@);
    let ron = String::from_str("application/ron");
    let yaml = String::from_str("application/yaml");
    let mut i: usize = 0;
    assert(items.skip(0) =~= items);
    while i < accept.len()
        invariant
            i <= accept.len(),
            items == accept@.map_values(|s: String| s@),
            ron@ == "application/ron"@,
            yaml@ == "application/yaml"@,
            negotiated(items) == negotiated(items.skip(i as int)),
        decreases accept.len() - i,
    {
        let ghost rest = items.skip(i as int);
        assert(rest[0] == accept@[i as int]@);
        assert(rest.drop_first() =~= items.skip(i + 1));
        if accept[i] == ron {
            return BodyFormat::Ron;
        }
        if accept[i] == yaml {
            return BodyFormat::Yaml;
        }
        i = i + 1;
    }
    assert(items.skip(i as int).len() == 0);
    BodyFormat::Json
}

} // verus!
