//! The adapter's settings: what the environment and the configuration file come to together.

use vstd::prelude::*;
use vstd::string::*;

use crate::hex_text::HexError;
use crate::node_id::{
    faults, id_of_text, ids, is_id_text, law_identities_are_decoded_bytes, node_id_error_text,
    parse_node_id, NodeId, NodeIdError,
};
use crate::session::{
    after, judge, law_hellos_are_judged, law_only_listed_peers, no_links, Hello, Judgement, Step,
};
use crate::text::{
    entries, law_entries_stand_between_commas, law_trimming_leaves_the_middle, split_csv, text_of,
    texts, trim, trimmed,
};
use crate::transport::{config_fault, Config, RunError};
use crate::vars::{
    file_values, law_file_values_are_not_blank, law_silent_line_is_ignored, pair, Vars,
};

verus! {

/// The value of a setting: the environment's, unless that is blank, and else the file's.
pub open spec fn setting(
    env: Map<Seq<char>, Seq<char>>,
    file: Map<Seq<char>, Seq<char>>,
    name: Seq<char>,
) -> Option<Seq<char>> {
    if env.contains_key(name) && trimmed(env[name]).len() > 0 {
        Some(env[name])
    } else if file.contains_key(name) {
        Some(file[name])
    } else {
        None
    }
}

/// The entries of a list that may not be there.
pub open spec fn entries_of(s: Option<Seq<char>>) -> Seq<Seq<char>> {
    match s {
        Some(t) => entries(t),
        None => entries(Seq::empty()),
    }
}

/// The value of a setting: the environment's, unless that is blank, and else the file's.
pub fn var(env: &Vars, file: &Vars, name: &str) -> (r: Option<String>)
    ensures
        text_of(r) == setting(env@, file@, name@),
        match r {
            Some(value) => value@ == if env@.contains_key(name@) && trimmed(env@[name@]).len() > 0 {
                env@[name@]
            } else {
                file@[name@]
            },
            None => true,
        },
        r is None <==> !(env@.contains_key(name@) && trimmed(env@[name@]).len() > 0)
            && !file@.contains_key(name@),
{
    if let Some(value) = env.get(name) {
        if !trim(value.as_str()).is_empty() {
            return Some(value.clone());
        }
    }
    match file.get(name) {
        Some(value) => Some(value.clone()),
        None => None,
    }
}

/// Where the configuration file is, if the environment says so. What the environment says stands
/// here even where it is blank.
pub fn config_path(env: &Vars) -> (r: Option<String>)
    ensures
        text_of(r) == if env@.contains_key("CE_WS_CONFIG"@) {
            Some(env@["CE_WS_CONFIG"@])
        } else {
            None
        },
{
    match env.get("CE_WS_CONFIG") {
        Some(path) => Some(path.clone()),
        None => None,
    }
}

/// How the adapter presents itself to its node.
pub struct Registration {
    /// The node's lane socket, if it is not the one in the data directory.
    pub sock: Option<String>,
    /// The node's token, if it is not the one in the data directory.
    pub token: Option<String>,
    /// The name that the transport is registered under.
    pub name: String,
    /// A capability chain, in hexadecimal.
    pub caps: Option<String>,
}

/// How the adapter presents itself to its node.
pub fn registration(env: &Vars, file: &Vars) -> (r: Registration)
    ensures
        text_of(r.sock) == setting(env@, file@, "CE_LANE_SOCK"@),
        text_of(r.token) == match setting(env@, file@, "CE_API_TOKEN"@) {
            Some(t) => Some(trimmed(t)),
            None => None,
        },
        r.name@ == match setting(env@, file@, "CE_TRANSPORT_NAME"@) {
            Some(t) => t,
            None => "ce-protocol-ws"@,
        },
        text_of(r.caps) == setting(env@, file@, "CE_TRANSPORT_CAPS"@),
{
    let sock = var(env, file, "CE_LANE_SOCK");
    let token = match var(env, file, "CE_API_TOKEN") {
        Some(t) => Some(trim(t.as_str()).to_owned()),
        None => None,
    };
    let name = match var(env, file, "CE_TRANSPORT_NAME") {
        Some(t) => t,
        None => "ce-protocol-ws".to_owned(),
    };
    let caps = var(env, file, "CE_TRANSPORT_CAPS");
    Registration { sock, token, name, caps }
}

/// Why the settings make no link.
#[derive(Debug)]
pub enum ConfigError {
    /// An entry of the list of peers is no identity.
    BadPeer(NodeIdError),
    /// There is nothing to listen on and nothing to dial.
    NothingToDo,
}

/// The error in words, where the configuration file is at `path`.
pub open spec fn config_error_text(e: ConfigError, path: Seq<char>) -> Seq<char> {
    match e {
        ConfigError::BadPeer(fault) => node_id_error_text(fault),
        ConfigError::NothingToDo =>
            "no CE_WS_LISTEN and no CE_WS_DIAL — set env vars or write "@ + path
            + " (KEY=VALUE lines)"@,
    }
}

impl ConfigError {
    /// The error in words, where the configuration file is at `path`.
    pub fn message(&self, path: &str) -> (r: String)
        ensures
            r@ == config_error_text(*self, path@),
            *self matches ConfigError::BadPeer(fault) ==> r@ == node_id_error_text(fault),
            *self is NothingToDo ==> r@
                == "no CE_WS_LISTEN and no CE_WS_DIAL — set env vars or write "@ + path@
                + " (KEY=VALUE lines)"@,
    {
        match self {
            ConfigError::BadPeer(fault) => fault.message(),
            ConfigError::NothingToDo => {
                "no CE_WS_LISTEN and no CE_WS_DIAL — set env vars or write ".to_owned().concat(
                    path,
                ).concat(" (KEY=VALUE lines)")
            },
        }
    }
}

/// Every entry is an identity.
pub open spec fn all_ids(list: Seq<Seq<char>>) -> bool {
    forall|i: int| 0 <= i < list.len() ==> is_id_text(#[trigger] list[i])
}

/// The error is about the first entry that is no identity.
pub open spec fn first_fault(list: Seq<Seq<char>>, e: NodeIdError) -> bool {
    exists|i: int| 0 <= i < list.len() && all_ids(list.take(i)) && faults(#[trigger] list[i], e)
}

/// Reads the identities of a list of entries, up to the first that is none.
fn parse_peers(list: &Vec<String>) -> (r: Result<Vec<NodeId>, NodeIdError>)
    ensures
        match r {
            Ok(peers) => all_ids(texts(list@)) && ids(peers@) == texts(list@).map_values(
                |t: Seq<char>| id_of_text(t),
            ),
            Err(e) => first_fault(texts(list@), e),
        },
{
    let ghost all = texts(list@);
    let mut out: Vec<NodeId> = Vec::new();
    let mut i: usize = 0;
    while i < list.len()
        invariant
            0 <= i <= list@.len(),
            all == texts(list@),
            all_ids(all.take(i as int)),
            ids(out@) == all.take(i as int).map_values(|t: Seq<char>| id_of_text(t)),
        decreases list@.len() - i,
    {
        assert(all[i as int] == list@[i as int]@);
        match parse_node_id(list[i].as_str()) {
            Ok(id) => {
                let ghost before = ids(out@);
                out.push(id);
                proof {
                    assert(all.take(i + 1) == all.take(i as int).push(all[i as int]));
                    assert(ids(out@) == before.push(id@));
                    assert(all_ids(all.take(i + 1)));
                }
            },
            Err(e) => {
                return Err(e);
            },
        }
        i = i + 1;
    }
    assert(all.take(i as int) == all);
    Ok(out)
}

/// A configuration is the one that settings make: what they name to listen on, to dial and to let
/// in, and nothing else.
pub open spec fn configured(
    env: Map<Seq<char>, Seq<char>>,
    file: Map<Seq<char>, Seq<char>>,
    config: Config,
) -> bool {
    let peers = entries_of(setting(env, file, "CE_WS_PEERS"@));
    &&& text_of(config.listen) == setting(env, file, "CE_WS_LISTEN"@)
    &&& texts(config.dial@) == entries_of(setting(env, file, "CE_WS_DIAL"@))
    &&& all_ids(peers)
    &&& ids(config.peers@) == peers.map_values(|t: Seq<char>| id_of_text(t))
    &&& config.listen is Some || config.dial@.len() > 0
}

/// What the transport core is to do: the settings that name what it listens on, what it dials
/// and which peers it lets in.
pub fn link_config(env: &Vars, file: &Vars) -> (r: Result<Config, ConfigError>)
    ensures
        ({
            let listen = setting(env@, file@, "CE_WS_LISTEN"@);
            let dial = entries_of(setting(env@, file@, "CE_WS_DIAL"@));
            let peers = entries_of(setting(env@, file@, "CE_WS_PEERS"@));
            match r {
                Ok(config) => configured(env@, file@, config),
                Err(ConfigError::BadPeer(e)) => first_fault(peers, e),
                Err(ConfigError::NothingToDo) => all_ids(peers) && listen is None && dial.len()
                    == 0,
            }
        }),
        ({
            let listen = setting(env@, file@, "CE_WS_LISTEN"@);
            let dial = entries_of(setting(env@, file@, "CE_WS_DIAL"@));
            let peers = entries_of(setting(env@, file@, "CE_WS_PEERS"@));
            &&& r is Ok <==> (listen is Some || dial.len() > 0) && forall|i: int|
                0 <= i < peers.len() ==> is_id_text(#[trigger] peers[i])
            &&& r matches Ok(config) ==> {
                &&& text_of(config.listen) == listen
                &&& texts(config.dial@) == dial
                &&& config.peers@.len() == peers.len()
                &&& forall|i: int|
                    0 <= i < peers.len() ==> config.peers@[i]@ == id_of_text(#[trigger] peers[i])
            }
        }),
{
    let listen = var(env, file, "CE_WS_LISTEN");
    let dial = split_csv(or_blank(var(env, file, "CE_WS_DIAL")).as_str());
    let named = split_csv(or_blank(var(env, file, "CE_WS_PEERS")).as_str());
    let peers = match parse_peers(&named) {
        Ok(peers) => peers,
        Err(e) => {
            proof {
                let list = entries_of(setting(env@, file@, "CE_WS_PEERS"@));
                law_first_bad_entry_is_reported(list, e);
                assert(first_fault(list, e));
                assert(!all_ids(list));
            }
            return Err(ConfigError::BadPeer(e));
        },
    };
    assert(texts(dial@).len() == dial@.len());
    assert(ids(peers@).len() == peers@.len());
    assert forall|i: int| 0 <= i < peers@.len() implies peers@[i]@ == id_of_text(
        #[trigger] texts(named@)[i],
    ) by {
        assert(ids(peers@)[i] == peers@[i]@);
    }
    if listen.is_none() && dial.len() == 0 {
        return Err(ConfigError::NothingToDo);
    }
    Ok(Config { listen, dial, peers })
}

/// A string that may be there, or the empty one.
fn or_blank(s: Option<String>) -> (r: String)
    ensures
        r@ == match s {
            Some(t) => t@,
            None => Seq::<char>::empty(),
        },
{
    match s {
        Some(t) => t,
        None => String::new(),
    }
}

/// What the environment says stands before what the file says, whatever the file says.
pub proof fn law_environment_wins(
    env: Map<Seq<char>, Seq<char>>,
    file: Map<Seq<char>, Seq<char>>,
    name: Seq<char>,
)
    requires
        env.contains_key(name),
        trimmed(env[name]).len() > 0,
    ensures
        setting(env, file, name) == Some(env[name]),
{
}

/// A blank value in the environment is as good as none: the file's value stands.
pub proof fn law_blank_variable_is_none(
    env: Map<Seq<char>, Seq<char>>,
    file: Map<Seq<char>, Seq<char>>,
    name: Seq<char>,
    blank: Seq<char>,
)
    requires
        trimmed(blank).len() == 0,
    ensures
        setting(env.insert(name, blank), file, name) == setting(env.remove(name), file, name),
{
}

/// No setting is blank, whether it comes from the environment or from a file.
pub proof fn law_settings_are_not_blank(
    env: Map<Seq<char>, Seq<char>>,
    text: Seq<char>,
    name: Seq<char>,
)
    ensures
        setting(env, file_values(text), name) matches Some(value) ==> trimmed(value).len() > 0,
{
    if file_values(text).contains_key(name) {
        law_file_values_are_not_blank(text, name);
    }
}

/// A line of the file that says nothing (a blank one, a comment, one without `=` or one that gives
/// a name a blank value) changes no setting, wherever it stands: it does not shadow what other
/// lines or the environment say.
pub proof fn law_blank_line_shadows_nothing(
    env: Map<Seq<char>, Seq<char>>,
    a: Seq<char>,
    line: Seq<char>,
    b: Seq<char>,
    name: Seq<char>,
)
    requires
        !line.contains('\n'),
        pair(line) is None,
    ensures
        setting(env, file_values(line.push('\n') + b), name) == setting(env, file_values(b), name),
        setting(env, file_values((a.push('\n') + line).push('\n') + b), name) == setting(
            env,
            file_values(a.push('\n') + b),
            name,
        ),
        setting(env, file_values(a.push('\n') + line), name) == setting(env, file_values(a), name),
{
    law_silent_line_is_ignored(a, line, b);
}

/// A configuration that settings make is one that the transport runs with, unless it names no
/// peers.
pub proof fn law_settings_give_work(
    env: Map<Seq<char>, Seq<char>>,
    file: Map<Seq<char>, Seq<char>>,
    config: Config,
)
    requires
        configured(env, file, config),
    ensures
        config_fault(config) == if config.peers@.len() == 0 {
            Some(RunError::PeersRequired)
        } else {
            None
        },
{
}

/// Whatever connections come and go, every peer that is registered is one that an entry of
/// `CE_WS_PEERS` names.
pub proof fn law_registered_peers_are_named<S>(
    env: Map<Seq<char>, Seq<char>>,
    file: Map<Seq<char>, Seq<char>>,
    config: Config,
    my_id: Seq<u8>,
    steps: Seq<Step<S>>,
    peer: Seq<u8>,
)
    requires
        configured(env, file, config),
        after(my_id, ids(config.peers@), no_links(), steps).links.contains_key(peer),
    ensures
        exists|i: int|
            0 <= i < entries_of(setting(env, file, "CE_WS_PEERS"@)).len() && id_of_text(
                #[trigger] entries_of(setting(env, file, "CE_WS_PEERS"@))[i],
            ) == peer,
{
    let named = entries_of(setting(env, file, "CE_WS_PEERS"@));
    let allowed = ids(config.peers@);
    law_only_listed_peers(my_id, allowed, steps, peer);
    let i = choose|i: int| 0 <= i < allowed.len() && allowed[i] == peer;
    assert(id_of_text(named[i]) == peer);
}

/// Where the environment has no value for a name, or a blank one, the file's value stands, and
/// there is none where the file has none.
pub proof fn law_file_speaks_where_environment_is_silent(
    env: Map<Seq<char>, Seq<char>>,
    file: Map<Seq<char>, Seq<char>>,
    name: Seq<char>,
)
    requires
        !env.contains_key(name) || trimmed(env[name]).len() == 0,
    ensures
        file.contains_key(name) ==> setting(env, file, name) == Some(file[name]),
        !file.contains_key(name) ==> setting(env, file, name) is None,
{
}

/// A setting depends on what the environment and the file say of its own name, and on nothing
/// else.
pub proof fn law_other_names_do_not_matter(
    env: Map<Seq<char>, Seq<char>>,
    file: Map<Seq<char>, Seq<char>>,
    name: Seq<char>,
    other: Seq<char>,
    value: Seq<char>,
)
    requires
        name != other,
    ensures
        setting(env.insert(other, value), file, name) == setting(env, file, name),
        setting(env, file.insert(other, value), name) == setting(env, file, name),
{
}

/// A list that is not there has no entries, no more than an empty one; one that is there has those
/// of its text.
pub proof fn law_missing_list_is_empty(list: Seq<char>)
    ensures
        entries_of(None).len() == 0,
        entries_of(Some(Seq::empty())).len() == 0,
        entries_of(Some(list)) == entries(list),
{
    law_entries_stand_between_commas(Seq::empty(), Seq::empty(), Seq::empty());
    law_trimming_leaves_the_middle(Seq::empty(), Seq::empty(), Seq::empty());
    assert(Seq::<char>::empty() + Seq::<char>::empty() + Seq::<char>::empty()
        == Seq::<char>::empty());
    assert(!Seq::<char>::empty().contains(','));
}

/// The error on a list of peers is about an entry that is no identity and that only identities
/// come before; it names this entry. A list of identities has no such error.
pub proof fn law_first_bad_entry_is_reported(list: Seq<Seq<char>>, e: NodeIdError)
    ensures
        first_fault(list, e) ==> exists|i: int|
            0 <= i < list.len() && !is_id_text(#[trigger] list[i]) && (forall|j: int|
                0 <= j < i ==> is_id_text(#[trigger] list[j])) && match e {
                NodeIdError::NotHex { entry, cause } => entry@ == list[i],
                NodeIdError::NotThirtyTwoBytes { entry } => entry@ == list[i],
            },
        all_ids(list) <==> forall|i: int| 0 <= i < list.len() ==> is_id_text(#[trigger] list[i]),
        all_ids(list) ==> !first_fault(list, e),
{
    if first_fault(list, e) {
        let i = choose|i: int|
            0 <= i < list.len() && all_ids(list.take(i)) && faults(#[trigger] list[i], e);
        assert forall|j: int| 0 <= j < i implies is_id_text(#[trigger] list[j]) by {
            assert(list.take(i)[j] == list[j]);
        }
        match e {
            NodeIdError::NotHex { entry, cause } => {
                law_identities_are_decoded_bytes(list[i], entry, cause);
            },
            NodeIdError::NotThirtyTwoBytes { entry } => {
                law_identities_are_decoded_bytes(
                    list[i],
                    entry,
                    HexError::OddLength,
                );
            },
        }
        assert(!is_id_text(list[i]));
    }
}

/// What the settings name is what the configuration holds: the address to listen on, each URL to
/// dial in its place, and no more of them.
pub proof fn law_named_ends_are_configured(
    env: Map<Seq<char>, Seq<char>>,
    file: Map<Seq<char>, Seq<char>>,
    config: Config,
)
    requires
        configured(env, file, config),
    ensures
        ({
            let listen = setting(env, file, "CE_WS_LISTEN"@);
            let dial = entries_of(setting(env, file, "CE_WS_DIAL"@));
            &&& config.listen is Some <==> listen is Some
            &&& config.listen matches Some(address) ==> listen == Some(address@)
            &&& config.dial@.len() == dial.len()
            &&& forall|i: int| 0 <= i < dial.len() ==> config.dial@[i]@ == #[trigger] dial[i]
        }),
{
    let dial = entries_of(setting(env, file, "CE_WS_DIAL"@));
    assert(texts(config.dial@).len() == config.dial@.len());
    assert forall|i: int| 0 <= i < dial.len() implies config.dial@[i]@ == #[trigger] dial[i] by {
        assert(texts(config.dial@)[i] == config.dial@[i]@);
    }
}

/// Every entry of `CE_WS_PEERS` is the identity of a peer that is let in: the configuration holds
/// it in its place, and no more than the entries; and a hello of it is accepted, unless the node
/// is this peer itself.
pub proof fn law_named_peers_are_let_in(
    env: Map<Seq<char>, Seq<char>>,
    file: Map<Seq<char>, Seq<char>>,
    config: Config,
    my_id: Seq<u8>,
    hello: Vec<u8>,
    i: int,
)
    requires
        configured(env, file, config),
        0 <= i < entries_of(setting(env, file, "CE_WS_PEERS"@)).len(),
    ensures
        ({
            let named = entries_of(setting(env, file, "CE_WS_PEERS"@));
            &&& config.peers@.len() == named.len()
            &&& is_id_text(named[i])
            &&& ids(config.peers@)[i] == id_of_text(named[i])
            &&& ids(config.peers@).contains(id_of_text(named[i]))
            &&& hello@ == id_of_text(named[i]) && hello@ != my_id ==> judge(
                my_id,
                ids(config.peers@),
                Hello::Binary(hello),
            ) == Judgement::Far(hello@)
        }),
{
    let named = entries_of(setting(env, file, "CE_WS_PEERS"@));
    assert(ids(config.peers@).len() == config.peers@.len());
    assert(ids(config.peers@)[i] == id_of_text(named[i]));
    law_hellos_are_judged(my_id, ids(config.peers@), Hello::Binary(hello), hello@);
}

/// What is said where there is nothing to do names the file, wherever it is; what is said of a bad
/// peer is what is said of its entry.
pub proof fn law_missing_work_names_the_file(path: Seq<char>, fault: NodeIdError)
    ensures
        config_error_text(ConfigError::NothingToDo, path)
            == "no CE_WS_LISTEN and no CE_WS_DIAL — set env vars or write "@ + path
            + " (KEY=VALUE lines)"@,
        config_error_text(ConfigError::BadPeer(fault), path) == node_id_error_text(fault),
{
}

} // verus!
