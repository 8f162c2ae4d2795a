use vstd::prelude::*;
use rand::distributions::Alphanumeric;
use rand::{thread_rng, Rng};
use crate::db::{Database, Delivery};
use crate::store::Store;
use crate::types::{MessageFromDatabase, MessageToDatabase};

verus! {

/// How many characters a generated room id has.
pub const ROOM_ID_LENGTH: usize = 24;

pub open spec fn is_alphanumeric(c: char) -> bool {
    ('a' <= c && c <= 'z') || ('A' <= c && c <= 'Z') || ('0' <= c && c <= '9')
}

/// Relies on rand's `thread_rng` sampled through `Alphanumeric`: `length`
/// characters, each drawn from a-z, A-Z and 0-9.
#[verifier::external_body]
fn random_room_id(length: usize) -> (r: String)
    ensures
        r@.len() == length,
        forall|i: int| 0 <= i < r@.len() ==> is_alphanumeric(#[trigger] r@[i]),
{
    thread_rng().sample_iter(&Alphanumeric).take(length).map(char::from).collect()
}

/// The addresses under which a room is reached.
#[derive(Clone, PartialEq, Eq, Debug)]
pub struct RoomLinks {
    pub room: String,
    pub socket_url: String,
    pub http_url: String,
}

pub open spec fn socket_url_of(host: Seq<char>, room: Seq<char>, use_https: bool) -> Seq<char> {
    (if use_https { "wss"@ } else { "ws"@ }) + "://"@ + host + "/room/"@ + room + "/connect"@
}

pub open spec fn http_url_of(host: Seq<char>, room: Seq<char>, use_https: bool) -> Seq<char> {
    (if use_https { "https"@ } else { "http"@ }) + "://"@ + host + "/room/"@ + room + "/send"@
}

/// The links of `room_id` as seen through `host`; `None` without a host.
pub fn room_result(host: Option<&str>, room_id: &str, use_https: bool) -> (r: Option<RoomLinks>)
    ensures
        r is None <==> host is None,
        r is Some ==> {
            &&& r->0.room@ == room_id@
            &&& r->0.socket_url@ == socket_url_of(host->0@, room_id@, use_https)
            &&& r->0.http_url@ == http_url_of(host->0@, room_id@, use_https)
        },
{
    let host = match host {
        Some(h) => h,
        None => return None,
    };
    let ws_protocol = if use_https { "wss" } else { "ws" };
    let http_protocol = if use_https { "https" } else { "http" };
    let socket_url = String::from_str(ws_protocol).concat("://").concat(host).concat("/room/").concat(room_id).concat("/connect");
    let http_url = String::from_str(http_protocol).concat("://").concat(host).concat("/room/").concat(room_id).concat("/send");
    Some(RoomLinks { room: String::from_str(room_id), socket_url, http_url })
}

/// Why a room request was refused.
#[derive(Clone, Copy, PartialEq, Eq, Structural, Debug)]
pub enum RoomError {
    /// The request named no room.
    MissingRoomId,
    /// The request had no `Host` header.
    MissingHost,
}

/// The links of a room that the caller named.
pub fn handle_room(host: Option<&str>, room_id: Option<&str>, use_https: bool) -> (r: Result<RoomLinks, RoomError>)
    ensures
        room_id is None ==> r == Err::<RoomLinks, RoomError>(RoomError::MissingRoomId),
        room_id is Some && host is None ==> r == Err::<RoomLinks, RoomError>(RoomError::MissingHost),
        r is Ok ==> room_id is Some && host is Some && {
            &&& r->Ok_0.room@ == room_id->0@
            &&& r->Ok_0.socket_url@ == socket_url_of(host->0@, room_id->0@, use_https)
            &&& r->Ok_0.http_url@ == http_url_of(host->0@, room_id->0@, use_https)
        },
        room_id is Some && host is Some ==> r is Ok,
{
    match room_id {
        Some(id) => match room_result(host, id, use_https) {
            Some(links) => Ok(links),
            None => Err(RoomError::MissingHost),
        },
        None => Err(RoomError::MissingRoomId),
    }
}

/// The links of a new room with a fresh random id.
pub fn handle_new_room(host: Option<&str>, use_https: bool) -> (r: Option<RoomLinks>)
    ensures
        r is None <==> host is None,
        r is Some ==> {
            &&& r->0.room@.len() == ROOM_ID_LENGTH
            &&& forall|i: int| 0 <= i < r->0.room@.len() ==> is_alphanumeric(#[trigger] r->0.room@[i])
            &&& r->0.socket_url@ == socket_url_of(host->0@, r->0.room@, use_https)
            &&& r->0.http_url@ == http_url_of(host->0@, r->0.room@, use_https)
        },
{
    let room_id = random_room_id(ROOM_ID_LENGTH);
    room_result(host, room_id.as_str(), use_https)
}

/// How a subscriber asked to be attached.
#[derive(Clone, Copy, PartialEq, Eq, Structural, Debug)]
pub struct ConnectionOptions {
    /// Attach as a debug subscriber.
    pub debug: bool,
    /// Frame messages as CBOR rather than JSON text.
    pub use_cbor: bool,
}

pub open spec fn flag_set(value: Option<&str>) -> bool {
    value is Some && value->0@.len() > 0
}

/// Reads the `debug` and `cbor` query parameters: any non-empty value sets one.
pub fn connection_options(debug: Option<&str>, cbor: Option<&str>) -> (r: ConnectionOptions)
    ensures
        r.debug == flag_set(debug),
        r.use_cbor == flag_set(cbor),
{
    let debug = match debug {
        Some(v) => v.unicode_len() > 0,
        None => false,
    };
    let use_cbor = match cbor {
        Some(v) => v.unicode_len() > 0,
        None => false,
    };
    ConnectionOptions { debug, use_cbor }
}

#[derive(Clone, Copy, PartialEq, Eq, Structural, Debug)]
pub enum RequestMethod {
    Get,
    Post,
    Other,
}

/// What a request to a room asks for.
#[derive(Clone, Copy, PartialEq, Eq, Structural, Debug)]
pub enum RoomCommand {
    /// Attach a subscriber over a socket.
    Connect,
    /// Handle one message and answer it.
    Send,
    /// Nothing that a room does.
    NotFound,
}

/// Index of the last `/` in `p`, or -1.
pub open spec fn last_slash(p: Seq<char>) -> int
    decreases p.len(),
{
    if p.len() == 0 {
        -1
    } else if p.last() == '/' {
        p.len() - 1
    } else {
        last_slash(p.drop_last())
    }
}

/// What follows the last `/` of a path; empty where there is none.
pub open spec fn last_segment(p: Seq<char>) -> Seq<char> {
    if last_slash(p) < 0 { Seq::empty() } else { p.subrange(last_slash(p) + 1, p.len() as int) }
}

proof fn lemma_last_slash_bounds(p: Seq<char>)
    ensures
        -1 <= last_slash(p) < p.len(),
        last_slash(p) >= 0 ==> p[last_slash(p)] == '/',
    decreases p.len(),
{
    if p.len() > 0 && p.last() != '/' {
        lemma_last_slash_bounds(p.drop_last());
    }
}

fn path_last_segment(path: &str) -> (r: String)
    ensures
        r@ == last_segment(path@),
{
    let n = path.unicode_len();
    let mut i: usize = n;
    assert(path@.subrange(0, n as int) =~= path@);
    while i > 0
        invariant
            i <= n,
            n == path@.len(),
            last_slash(path@) == last_slash(path@.subrange(0, i as int)),
        decreases i,
    {
        proof {
            assert(path@.subrange(0, i as int).drop_last() =~= path@.subrange(0, i as int - 1));
        }
        if path.get_char(i - 1) == '/' {
            return String::from_str(path.substring_char(i, n));
        }
        i = i - 1;
    }
    proof { lemma_last_slash_bounds(path@); }
    String::new()
}

/// Routes a request to a room by its method and the last segment of its path.
pub fn room_command(method: RequestMethod, path: &str) -> (r: RoomCommand)
    ensures
        r == (if method == RequestMethod::Get && last_segment(path@) == "connect"@ {
            RoomCommand::Connect
        } else if method == RequestMethod::Post && last_segment(path@) == "send"@ {
            RoomCommand::Send
        } else {
            RoomCommand::NotFound
        }),
{
    let segment = path_last_segment(path);
    match method {
        RequestMethod::Get => if segment == String::from_str("connect") {
            RoomCommand::Connect
        } else {
            RoomCommand::NotFound
        },
        RequestMethod::Post => if segment == String::from_str("send") {
            RoomCommand::Send
        } else {
            RoomCommand::NotFound
        },
        RequestMethod::Other => RoomCommand::NotFound,
    }
}

/// Whether handling `message` changes what the room must persist.
pub open spec fn changes_store(message: MessageToDatabase) -> bool {
    match message {
        MessageToDatabase::Push { action, .. } => !(action is Relay),
        _ => false,
    }
}

/// One room: its database while loaded, and whether the database changed since
/// the last snapshot was taken.
pub struct DbRoom {
    db: Database,
    loaded: bool,
    dirty: bool,
    use_https: bool,
}

impl DbRoom {
    pub closed spec fn wf(&self) -> bool {
        &&& self.db.wf()
        &&& !self.loaded ==> !self.dirty
    }

    pub closed spec fn loaded(&self) -> bool {
        self.loaded
    }

    pub closed spec fn dirty(&self) -> bool {
        self.dirty
    }

    pub closed spec fn database(&self) -> Database {
        self.db
    }

    pub closed spec fn spec_use_https(&self) -> bool {
        self.use_https
    }

    /// A room that has not loaded its database yet.
    pub fn new(use_https: bool) -> (r: DbRoom)
        ensures
            r.wf(),
            !r.loaded(),
            !r.dirty(),
            r.spec_use_https() == use_https,
    {
        DbRoom { db: Database::new(), loaded: false, dirty: false, use_https }
    }

    pub fn is_loaded(&self) -> (r: bool)
        ensures
            r == self.loaded(),
    {
        self.loaded
    }

    pub fn use_https(&self) -> (r: bool)
        ensures
            r == self.spec_use_https(),
    {
        self.use_https
    }

    /// Cold start: builds the database from the snapshot that durable storage
    /// held, or empty, with the replica sink installed. A loaded room stays as
    /// it is.
    pub fn load(&mut self, snapshot: Option<Store>)
        requires
            old(self).wf(),
            snapshot is Some ==> snapshot->0.wf(),
        ensures
            final(self).wf(),
            final(self).loaded(),
            final(self).spec_use_https() == old(self).spec_use_https(),
            old(self).loaded() ==> *final(self) == *old(self),
            !old(self).loaded() ==> {
                &&& !final(self).dirty()
                &&& final(self).database().inner().has_replica_sink()
                &&& final(self).database().inner().store_view() == match snapshot {
                    Some(s) => s@,
                    None => Map::<Seq<char>, crate::store::StreamModel>::empty(),
                }
                &&& final(self).database().inner().connections().len() == 0
                &&& final(self).database().inner().debug_connections().len() == 0
                &&& final(self).database().inner().replica_connections().len() == 0
            },
    {
        if self.loaded {
            return;
        }
        let store = match snapshot {
            Some(s) => s,
            None => Store::new(),
        };
        let mut db = Database::new_from_store(store);
        db.set_replica_callback();
        self.db = db;
        self.loaded = true;
        self.dirty = false;
    }

    /// Whether the database can take `message`.
    pub fn accepts(&self, message: &MessageToDatabase) -> (r: bool)
        requires
            self.wf(),
        ensures
            r == self.database().inner().accepts(*message),
    {
        self.db.accepts(message)
    }

    /// Handles one message on the loaded database; a durable push marks the
    /// room as changed.
    pub fn send_message(&mut self, message: &MessageToDatabase, outbox: &mut Vec<Delivery>) -> (r: Option<MessageFromDatabase>)
        requires
            old(self).wf(),
            old(self).loaded(),
            old(self).database().inner().accepts(*message),
        ensures
            final(self).wf(),
            final(self).loaded(),
            final(self).spec_use_https() == old(self).spec_use_https(),
            final(self).dirty() == (old(self).dirty() || changes_store(*message)),
            match r {
                Some(m) => old(self).database().inner().response_for(*message) == Some(m@),
                None => old(self).database().inner().response_for(*message) is None,
            },
            match *message {
                MessageToDatabase::Push { key, value, action } => {
                    &&& final(self).database().inner().store_view()
                        == crate::db::after_push(old(self).database().inner().store_view(), key, value, action)
                    &&& crate::db::deliveries_view(final(outbox)@) == crate::db::deliveries_view(old(outbox)@)
                        + old(self).database().inner().push_deliveries(key, value, action)
                },
                _ => {
                    &&& final(self).database().inner().store_view() == old(self).database().inner().store_view()
                    &&& final(outbox)@ == old(outbox)@
                },
            },
    {
        let r = self.db.send_message(message, outbox);
        let changes = match message {
            MessageToDatabase::Push { action, .. } => match action {
                crate::types::Action::Relay => false,
                _ => true,
            },
            _ => false,
        };
        if changes {
            self.dirty = true;
        }
        r
    }

    /// Attaches a subscriber to the loaded database, as a debug subscriber
    /// where `debug` is set; gives its id, or `None` when ids are used up.
    pub fn connect(&mut self, debug: bool, outbox: &mut Vec<Delivery>) -> (r: Option<u64>)
        requires
            old(self).wf(),
            old(self).loaded(),
        ensures
            final(self).wf(),
            final(self).loaded(),
            final(self).dirty() == old(self).dirty(),
            final(self).spec_use_https() == old(self).spec_use_https(),
            final(self).database().inner().store_view() == old(self).database().inner().store_view(),
            r is None <==> old(self).database().next_id() == u64::MAX,
            r is Some ==> final(self).database().is_live(r->0),
            r is Some && !debug ==> final(self).database().inner().connections()
                == old(self).database().inner().connections().push(crate::db::Subscriber { id: r->0, alive: true }),
            r is Some && debug ==> final(self).database().inner().debug_connections()
                == old(self).database().inner().debug_connections().push(crate::db::Subscriber { id: r->0, alive: true }),
            !debug ==> final(outbox)@ == old(outbox)@,
            r is Some && debug ==> {
                let added = final(outbox)@.subrange(old(outbox)@.len() as int, final(outbox)@.len() as int);
                let store = old(self).database().inner().store_view();
                &&& final(outbox)@.subrange(0, old(outbox)@.len() as int) == old(outbox)@
                &&& forall|j: int| 0 <= j < added.len() ==> crate::db::is_stream_for(#[trigger] added[j]@, r->0, store)
                &&& forall|k: Seq<char>| store.contains_key(k) ==> exists|j: int| 0 <= j < added.len()
                    && crate::db::stream_key(#[trigger] added[j]@) == k
                &&& forall|a: int, b: int| 0 <= a < added.len() && 0 <= b < added.len() && a != b
                    ==> crate::db::stream_key(#[trigger] added[a]@) != crate::db::stream_key(#[trigger] added[b]@)
            },
    {
        if debug {
            let r = self.db.connect_debug(outbox);
            proof {
                if r is Some {
                    let subs = self.db.inner().debug_connections();
                    assert(subs[subs.len() - 1].id == r->0);
                }
            }
            r
        } else {
            let r = self.db.connect();
            proof {
                if r is Some {
                    let subs = self.db.inner().connections();
                    assert(subs[subs.len() - 1].id == r->0);
                }
            }
            r
        }
    }

    /// Detaches a subscriber.
    pub fn drop_connection(&mut self, id: u64)
        requires
            old(self).wf(),
        ensures
            final(self).wf(),
            final(self).loaded() == old(self).loaded(),
            final(self).dirty() == old(self).dirty(),
            final(self).spec_use_https() == old(self).spec_use_https(),
            !final(self).database().is_live(id),
            final(self).database().inner().store_view() == old(self).database().inner().store_view(),
    {
        self.db.drop_connection(id);
    }

    /// The snapshot to write to durable storage when the room changed since
    /// the last one; the room is then clean.
    pub fn take_snapshot(&mut self) -> (r: Option<Store>)
        requires
            old(self).wf(),
        ensures
            final(self).wf(),
            !final(self).dirty(),
            final(self).loaded() == old(self).loaded(),
            final(self).spec_use_https() == old(self).spec_use_https(),
            final(self).database() == old(self).database(),
            r is Some <==> old(self).dirty(),
            r is Some ==> r->0.wf() && r->0@ == old(self).database().inner().store_view(),
    {
        if !self.dirty {
            return None;
        }
        self.dirty = false;
        Some(self.db.store_snapshot())
    }

    /// The inactivity alarm: gives back the store to persist and releases the
    /// database; the next access loads it again.
    pub fn alarm(&mut self) -> (r: Option<Store>)
        requires
            old(self).wf(),
        ensures
            final(self).wf(),
            !final(self).loaded(),
            !final(self).dirty(),
            final(self).spec_use_https() == old(self).spec_use_https(),
            r is Some <==> old(self).loaded(),
            r is Some ==> r->0.wf() && r->0@ == old(self).database().inner().store_view(),
    {
        if !self.loaded {
            return None;
        }
        let store = self.db.store_snapshot();
        self.db = Database::new();
        self.loaded = false;
        self.dirty = false;
        Some(store)
    }
}

} // verus!
