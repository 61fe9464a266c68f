//! Shared domain types and store queries.

pub mod date_type;
pub mod form;

use vstd::prelude::*;

verus! {

/// A localized, user-facing message, keyed by a stable translation key.
#[derive(Clone, Debug)]
pub struct Message {
    pub text_key: String,
    pub message_type: MessageType,
}

/// How a message is presented to the user.
#[derive(Clone, Copy, PartialEq, Eq, Structural, Debug)]
pub enum MessageType {
    Success,
    Error,
    Info,
}

/// A room that slots can be generated for.
#[derive(Clone, Debug)]
pub struct Room {
    pub id: u64,
    pub room_number: String,
}

} // verus!

use vstd::prelude::*;

use crate::admin::Announcement;
use crate::store::{
    spec_find_waiting_by_token, Database,
};
use crate::util::str_eq;

verus! {

/// The first room with this number, if any.
pub open spec fn spec_find_room_by_number(s: Seq<Room>, number: Seq<char>) -> Option<Room>
    decreases s.len(),
{
    if s.len() == 0 {
        None
    } else if s[0].room_number@ == number {
        Some(s[0])
    } else {
        spec_find_room_by_number(s.skip(1), number)
    }
}

/// Resolves a submitted room number to its id; an unknown number reports a
/// validation message instead.
#[verifier::loop_isolation(false)]
pub fn validate_room(room: &str, messages: &mut Vec<Message>, db: &Database) -> (r: Option<u64>)
    ensures
        match spec_find_room_by_number(db.rooms@, room@) {
            Some(rm) => r == Some(rm.id) && final(messages)@ == old(messages)@,
            None => {
                &&& r is None
                &&& final(messages)@.len() == old(messages)@.len() + 1
                &&& final(messages)@.take(old(messages)@.len() as int) == old(messages)@
                &&& final(messages)@.last().text_key@ == "validation-room"@
                &&& final(messages)@.last().message_type == MessageType::Error
            },
        },
{
    let mut i: usize = 0;
    proof {
        assert(db.rooms@.skip(0) =~= db.rooms@);
    }
    while i < db.rooms.len()
        invariant
            i <= db.rooms@.len(),
            spec_find_room_by_number(db.rooms@, room@) == spec_find_room_by_number(
                db.rooms@.skip(i as int),
                room@,
            ),
            messages == old(messages),
        decreases db.rooms@.len() - i,
    {
        proof {
            assert(db.rooms@.skip(i as int)[0] == db.rooms@[i as int]);
            assert(db.rooms@.skip(i as int).skip(1) =~= db.rooms@.skip(i + 1));
        }
        if str_eq(db.rooms[i].room_number.as_str(), room) {
            return Some(db.rooms[i].id);
        }
        i += 1;
    }
    messages.push(
        Message { text_key: "validation-room".to_owned(), message_type: MessageType::Error },
    );
    proof {
        assert(messages@.take(old(messages)@.len() as int) =~= old(messages)@);
    }
    None
}

/// The first announcement for this position and language, if any.
pub open spec fn spec_find_announcement(
    s: Seq<Announcement>,
    position: Seq<char>,
    lang: Seq<char>,
) -> Option<Announcement>
    decreases s.len(),
{
    if s.len() == 0 {
        None
    } else if s[0].position@ == position && s[0].lang@ == lang {
        Some(s[0])
    } else {
        spec_find_announcement(s.skip(1), position, lang)
    }
}

/// The stored announcement text for a page position and language.
#[verifier::loop_isolation(false)]
pub fn get_announcement(position: &str, lang: &str, db: &Database) -> (r: Option<String>)
    ensures
        match spec_find_announcement(db.announcements@, position@, lang@) {
            Some(a) => r matches Some(c) && c@ == a.content@,
            None => r is None,
        },
{
    let mut i: usize = 0;
    proof {
        assert(db.announcements@.skip(0) =~= db.announcements@);
    }
    while i < db.announcements.len()
        invariant
            i <= db.announcements@.len(),
            spec_find_announcement(db.announcements@, position@, lang@) == spec_find_announcement(
                db.announcements@.skip(i as int),
                position@,
                lang@,
            ),
        decreases db.announcements@.len() - i,
    {
        proof {
            assert(db.announcements@.skip(i as int)[0] == db.announcements@[i as int]);
            assert(db.announcements@.skip(i as int).skip(1) =~= db.announcements@.skip(i + 1));
        }
        let a = &db.announcements[i];
        if str_eq(a.position.as_str(), position) && str_eq(a.lang.as_str(), lang) {
            return Some(a.content.clone());
        }
        i += 1;
    }
    None
}

/// The address behind a presented waiting-list token, if any.
pub fn get_waiting_list_email(token: Option<u64>, db: &Database) -> (r: Option<String>)
    ensures
        match token {
            None => r is None,
            Some(t) => match spec_find_waiting_by_token(db.waiting_list@, t) {
                Some(e) => r matches Some(m) && m@ == e.email@,
                None => r is None,
            },
        },
{
    match token {
        None => None,
        Some(t) => match db.waiting_index_for_token(t) {
            Some(i) => Some(db.waiting_list[i].email.clone()),
            None => None,
        },
    }
}

} // verus!
