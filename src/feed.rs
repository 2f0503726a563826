use vstd::prelude::*;
use vstd::string::StringExecFns;
use crate::model::{AwardRecord, FeedError, MedalClass};

verus! {

/// A JSON document as the results feed delivers it.  Numbers are kept as
/// their text: the award data never reads them.
#[derive(Debug)]
pub enum JsonValue {
    Null,
    Bool(bool),
    Number(String),
    Str(String),
    Array(Vec<JsonValue>),
    Object(Vec<(String, JsonValue)>),
}

/// The value under the first member named `key` of `fields`.
pub open spec fn member(fields: Seq<(String, JsonValue)>, key: Seq<char>) -> Option<JsonValue>
    decreases fields.len(),
{
    if fields.len() == 0 {
        None
    } else if fields[0].0@ == key {
        Some(fields[0].1)
    } else {
        member(fields.drop_first(), key)
    }
}

/// `v[key]`: the member `key` of an object; nothing for a missing member,
/// for a value that is not an object, and for nothing.
pub open spec fn at(v: Option<JsonValue>, key: Seq<char>) -> Option<JsonValue> {
    match v {
        Some(JsonValue::Object(fields)) => member(fields@, key),
        _ => None,
    }
}

pub open spec fn str_of(v: Option<JsonValue>) -> Option<Seq<char>> {
    match v {
        Some(JsonValue::Str(s)) => Some(s@),
        _ => None,
    }
}

pub open spec fn array_of(v: Option<JsonValue>) -> Option<Seq<JsonValue>> {
    match v {
        Some(JsonValue::Array(items)) => Some(items@),
        _ => None,
    }
}

pub open spec fn is_object(v: Option<JsonValue>) -> bool {
    v matches Some(JsonValue::Object(_))
}

/// The medal class that the feed spells `s`.
pub open spec fn medal_class_named(s: Seq<char>) -> Option<MedalClass> {
    if s == "GOLD"@ {
        Some(MedalClass::Gold)
    } else if s == "SILVER"@ {
        Some(MedalClass::Silver)
    } else if s == "BRONZE"@ {
        Some(MedalClass::Bronze)
    } else {
        None
    }
}

/// The entrant an award credits: the participant's country name where the
/// participant has a country object, else the participant's title.
pub open spec fn entrant_of(award: JsonValue) -> Option<Seq<char>> {
    let participant = at(Some(award), "participant"@);
    if is_object(at(participant, "countryObject"@)) {
        str_of(at(at(participant, "countryObject"@), "name"@))
    } else {
        str_of(at(participant, "title"@))
    }
}

/// One award of the feed, or nothing when its class is unknown or its
/// entrant missing or empty.
pub open spec fn award_of(award: JsonValue) -> Option<(MedalClass, Seq<char>)> {
    match (
        match str_of(at(Some(award), "medalType"@)) {
            Some(s) => medal_class_named(s),
            None => None,
        },
        entrant_of(award),
    ) {
        (Some(c), Some(e)) => if e.len() > 0 {
            Some((c, e))
        } else {
            None
        },
        _ => None,
    }
}

/// All awards of a list, or nothing when any one is malformed.
pub open spec fn decode_awards(awards: Seq<JsonValue>) -> Option<Seq<(MedalClass, Seq<char>)>>
    decreases awards.len(),
{
    if awards.len() == 0 {
        Some(Seq::empty())
    } else {
        match (decode_awards(awards.drop_last()), award_of(awards.last())) {
            (Some(earlier), Some(a)) => Some(earlier.push(a)),
            _ => None,
        }
    }
}

/// The awards of one event, from its `awards` array.
pub open spec fn event_awards(event: JsonValue) -> Option<Seq<(MedalClass, Seq<char>)>> {
    match array_of(at(Some(event), "awards"@)) {
        Some(awards) => decode_awards(awards),
        None => None,
    }
}

/// The awards of all events, event after event.
pub open spec fn decode_events(events: Seq<JsonValue>) -> Option<Seq<(MedalClass, Seq<char>)>>
    decreases events.len(),
{
    if events.len() == 0 {
        Some(Seq::empty())
    } else {
        match (decode_events(events.drop_last()), event_awards(events.last())) {
            (Some(earlier), Some(more)) => Some(earlier + more),
            _ => None,
        }
    }
}

/// The award list of a feed document: the events under
/// `pageProps.gameDiscipline.events`, or nothing when the document has
/// another shape or holds a malformed award.
pub open spec fn decode_feed(doc: JsonValue) -> Option<Seq<(MedalClass, Seq<char>)>> {
    match array_of(at(at(at(Some(doc), "pageProps"@), "gameDiscipline"@), "events"@)) {
        Some(events) => decode_events(events),
        None => None,
    }
}

/// The class and entrant name of each record.
pub open spec fn records_view(records: Seq<AwardRecord>) -> Seq<(MedalClass, Seq<char>)> {
    records.map_values(|r: AwardRecord| (r.medal_class, r.entrant@))
}

proof fn lemma_member_found(fields: Seq<(String, JsonValue)>, key: Seq<char>, i: int)
    requires
        0 <= i <= fields.len(),
        forall|k: int| 0 <= k < i ==> (#[trigger] fields[k]).0@ != key,
    ensures
        i < fields.len() && fields[i].0@ == key ==> member(fields, key) == Some(fields[i].1),
        i == fields.len() ==> member(fields, key) is None,
    decreases i,
{
    if i > 0 {
        assert(fields[0].0@ != key);
        assert forall|k: int| 0 <= k < i - 1 implies (#[trigger] fields.drop_first()[k]).0@ != key by {
            assert(fields.drop_first()[k] == fields[k + 1]);
        }
        lemma_member_found(fields.drop_first(), key, i - 1);
    }
}

/// `v[key]`, for a value that may be missing.
#[verifier::loop_isolation(false)]
fn field<'a>(v: Option<&'a JsonValue>, key: &str) -> (r: Option<&'a JsonValue>)
    ensures
        match r {
            Some(x) => at(
                match v {
                    Some(y) => Some(*y),
                    None => None,
                },
                key@,
            ) == Some(*x),
            None => at(
                match v {
                    Some(y) => Some(*y),
                    None => None,
                },
                key@,
            ) is None,
        },
{
    let key = String::from_str(key);
    match v {
        Some(JsonValue::Object(fields)) => {
            let mut i: usize = 0;
            while i < fields.len()
                invariant
                    i <= fields@.len(),
                    forall|k: int| 0 <= k < i ==> (#[trigger] fields@[k]).0@ != key@,
                decreases fields@.len() - i,
            {
                if fields[i].0 == key {
                    proof {
                        lemma_member_found(fields@, key@, i as int);
                    }
                    return Some(&fields[i].1);
                }
                i = i + 1;
            }
            proof {
                lemma_member_found(fields@, key@, i as int);
            }
            None
        },
        _ => None,
    }
}

fn as_text(v: Option<&JsonValue>) -> (r: Option<&String>)
    ensures
        match r {
            Some(s) => v matches Some(x) && str_of(Some(*x)) == Some(s@),
            None => v matches Some(x) ==> str_of(Some(*x)) is None,
        },
{
    match v {
        Some(JsonValue::Str(s)) => Some(s),
        _ => None,
    }
}

/// The medal class that the feed spells `s`, if any.
pub fn parse_medal_class(s: &String) -> (r: Option<MedalClass>)
    ensures
        r == medal_class_named(s@),
{
    if *s == String::from_str("GOLD") {
        Some(MedalClass::Gold)
    } else if *s == String::from_str("SILVER") {
        Some(MedalClass::Silver)
    } else if *s == String::from_str("BRONZE") {
        Some(MedalClass::Bronze)
    } else {
        None
    }
}

/// Reads one award; `MalformedRecord` when its class is unknown or its
/// entrant missing or empty.
pub fn read_award(award: &JsonValue) -> (r: Result<AwardRecord, FeedError>)
    ensures
        match r {
            Ok(rec) => award_of(*award) == Some((rec.medal_class, rec.entrant@)),
            Err(e) => e == FeedError::MalformedRecord && award_of(*award) is None,
        },
{
    let class = match as_text(field(Some(award), "medalType")) {
        Some(s) => parse_medal_class(s),
        None => None,
    };
    let participant = field(Some(award), "participant");
    let country = field(participant, "countryObject");
    let name = match country {
        Some(JsonValue::Object(_)) => as_text(field(country, "name")),
        _ => as_text(field(participant, "title")),
    };
    match (class, name) {
        (Some(c), Some(n)) => {
            if !n.as_str().is_empty() {
                Ok(AwardRecord { medal_class: c, entrant: n.clone() })
            } else {
                Err(FeedError::MalformedRecord)
            }
        },
        _ => Err(FeedError::MalformedRecord),
    }
}

/// Appends the awards of one event to `out`; `MalformedRecord`, with `out`
/// left in some state, when the event has no `awards` array or holds a
/// malformed award.
fn read_event(event: &JsonValue, out: &mut Vec<AwardRecord>) -> (r: Result<(), FeedError>)
    ensures
        match r {
            Ok(()) => event_awards(*event) matches Some(more) && records_view(final(out)@)
                == records_view(old(out)@) + more,
            Err(e) => e == FeedError::MalformedRecord && event_awards(*event) is None,
        },
{
    let awards = match field(Some(event), "awards") {
        Some(JsonValue::Array(items)) => items,
        _ => {
            return Err(FeedError::MalformedRecord);
        },
    };
    let ghost start = records_view(out@);
    let mut j: usize = 0;
    while j < awards.len()
        invariant
            j <= awards@.len(),
            array_of(at(Some(*event), "awards"@)) == Some(awards@),
            decode_awards(awards@.take(j as int)) matches Some(done) && records_view(out@) == start
                + done,
        decreases awards@.len() - j,
    {
        let ghost done = decode_awards(awards@.take(j as int))->Some_0;
        let rec = match read_award(&awards[j]) {
            Ok(rec) => rec,
            Err(e) => {
                proof {
                    assert(awards@.take(j as int + 1).drop_last() =~= awards@.take(j as int));
                    lemma_decode_awards_stops(awards@, j as int + 1);
                }
                return Err(e);
            },
        };
        let ghost before = out@;
        out.push(rec);
        proof {
            assert(awards@.take(j as int + 1).drop_last() =~= awards@.take(j as int));
            assert(records_view(out@) =~= records_view(before).push((rec.medal_class, rec.entrant@)));
            assert(records_view(out@) =~= start + done.push((rec.medal_class, rec.entrant@)));
        }
        j = j + 1;
    }
    assert(awards@.take(awards@.len() as int) =~= awards@);
    Ok(())
}

proof fn lemma_decode_awards_stops(awards: Seq<JsonValue>, j: int)
    requires
        0 < j <= awards.len(),
        decode_awards(awards.take(j)) is None,
    ensures
        decode_awards(awards) is None,
    decreases awards.len() - j,
{
    if j < awards.len() {
        assert(awards.take(j + 1).drop_last() =~= awards.take(j));
        lemma_decode_awards_stops(awards, j + 1);
    } else {
        assert(awards.take(j) =~= awards);
    }
}

proof fn lemma_decode_events_stops(events: Seq<JsonValue>, i: int)
    requires
        0 < i <= events.len(),
        decode_events(events.take(i)) is None,
    ensures
        decode_events(events) is None,
    decreases events.len() - i,
{
    if i < events.len() {
        assert(events.take(i + 1).drop_last() =~= events.take(i));
        lemma_decode_events_stops(events, i + 1);
    } else {
        assert(events.take(i) =~= events);
    }
}

/// Extracts the award list from a feed document.  The whole document is
/// rejected with `MalformedRecord` when it has another shape or any award
/// in it is malformed: no award is silently dropped.
pub fn extract_awards(doc: &JsonValue) -> (r: Result<Vec<AwardRecord>, FeedError>)
    ensures
        match r {
            Ok(records) => decode_feed(*doc) == Some(records_view(records@)),
            Err(e) => e == FeedError::MalformedRecord && decode_feed(*doc) is None,
        },
{
    let events = match field(field(field(Some(doc), "pageProps"), "gameDiscipline"), "events") {
        Some(JsonValue::Array(items)) => items,
        _ => {
            return Err(FeedError::MalformedRecord);
        },
    };
    let mut out: Vec<AwardRecord> = Vec::new();
    let mut i: usize = 0;
    assert(records_view(out@) =~= Seq::empty());
    while i < events.len()
        invariant
            i <= events@.len(),
            decode_feed(*doc) == decode_events(events@),
            decode_events(events@.take(i as int)) == Some(records_view(out@)),
        decreases events@.len() - i,
    {
        let res = read_event(&events[i], &mut out);
        proof {
            assert(events@.take(i as int + 1).drop_last() =~= events@.take(i as int));
        }
        if res.is_err() {
            proof {
                lemma_decode_events_stops(events@, i as int + 1);
            }
            return Err(FeedError::MalformedRecord);
        }
        i = i + 1;
    }
    assert(events@.take(events@.len() as int) =~= events@);
    Ok(out)
}

} // verus!
