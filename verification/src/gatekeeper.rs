//! The login gateway: it checks credentials, picks the zone of the player
//! from the continent its address belongs to, and hands out an available
//! game server of that zone.
use vstd::prelude::*;
use rand::RngExt;
use crate::text::str_eq;
use crate::uuids::new_uuid_v4;
use crate::uuids::{uuid_to_string, uuid_text};

verus! {

/// Answer of the health endpoint.
#[derive(Debug)]
pub struct HealthResponse {
    pub status: String,
}

/// Credentials sent to the login endpoint.
#[derive(Debug)]
pub struct LoginRequest<'r> {
    pub username: &'r str,
    pub password: &'r str,
}

/// Where a player is to connect.
#[derive(Debug)]
pub struct ServerInfo {
    pub ip: String,
    pub port: u16,
    pub zone: String,
}

/// Answer to a successful login.
#[derive(Debug)]
pub struct LoginResponse {
    pub player_id: String,
    pub server: ServerInfo,
}

/// Answer to a failed request.
#[derive(Debug)]
pub struct ErrorResponse {
    pub error: String,
}

/// What the server registry holds of one game server: its status and zone
/// (absent when they could not be read), its address and port.
#[derive(Debug)]
pub struct ServerRecord {
    pub status: Option<String>,
    pub zone: Option<String>,
    pub ip: String,
    pub port: u16,
}

/// HTTP status of a refused login: bad credentials.
pub const STATUS_UNAUTHORIZED: u16 = 401;
/// HTTP status of a refused login: no server to offer.
pub const STATUS_SERVICE_UNAVAILABLE: u16 = 503;

/// The game zone of a continent code: Europe and unknown codes go to `EU`,
/// both Americas to `NA`, Asia and Oceania to `ASIA`.
pub open spec fn spec_zone_of(code: Seq<char>) -> Seq<char> {
    if code == "NA"@ || code == "SA"@ {
        "NA"@
    } else if code == "AS"@ || code == "OC"@ {
        "ASIA"@
    } else {
        "EU"@
    }
}

/// The credentials are accepted: a non-empty user name and the shared
/// password `1234`.
pub open spec fn spec_credentials_ok(username: Seq<char>, password: Seq<char>) -> bool {
    username.len() > 0 && password == "1234"@
}

/// The record describes an available server of `zone`.
pub open spec fn serves(r: ServerRecord, zone: Seq<char>) -> bool {
    &&& r.status matches Some(s) && s@ == "available"@
    &&& r.zone matches Some(z) && z@ == zone
}

/// The offer made from a record: its address, port and zone.
pub open spec fn offer_of(r: ServerRecord, info: ServerInfo) -> bool {
    &&& info.ip@ == r.ip@
    &&& info.port == r.port
    &&& r.zone matches Some(z) && info.zone@ == z@
}

/// The records that describe available servers of `zone`, in their order.
pub open spec fn available_in(records: Seq<ServerRecord>, zone: Seq<char>) -> Seq<ServerRecord> {
    records.filter(|r: ServerRecord| serves(r, zone))
}

/// The health endpoint's answer: status `ok`.
pub fn health() -> (r: HealthResponse)
    ensures
        r.status@ == "ok"@,
{
    HealthResponse { status: "ok".to_owned() }
}

/// The game zone of a continent code, as `spec_zone_of` states.
pub fn map_continent_to_zone(continent_code: &str) -> (r: String)
    ensures
        r@ == spec_zone_of(continent_code@),
{
    proof {
        reveal_strlit("EU");
        reveal_strlit("NA");
        reveal_strlit("SA");
        reveal_strlit("AS");
        reveal_strlit("OC");
        reveal_strlit("ASIA");
        assert("EU"@[0] != "NA"@[0] && "EU"@[0] != "SA"@[0] && "EU"@[0] != "AS"@[0] && "EU"@[0]
            != "OC"@[0]);
        assert("AS"@[0] != "NA"@[0] && "AS"@[0] != "SA"@[0] && "OC"@[0] != "NA"@[0] && "OC"@[0]
            != "SA"@[0]);
    }
    if str_eq(continent_code, "EU") {
        "EU".to_owned()
    } else if str_eq(continent_code, "NA") {
        "NA".to_owned()
    } else if str_eq(continent_code, "SA") {
        "NA".to_owned()
    } else if str_eq(continent_code, "AS") || str_eq(continent_code, "OC") {
        "ASIA".to_owned()
    } else {
        "EU".to_owned()
    }
}

/// The zone of a player whose address the geographic database placed on
/// `continent_code`; `EU` when it could not.
pub fn zone_for(continent_code: Option<&str>) -> (r: String)
    ensures
        r@ == login_zone(continent_code),
{
    match continent_code {
        Some(code) => map_continent_to_zone(code),
        None => "EU".to_owned(),
    }
}

/// The zone of a player whose continent the geographic database gave, or
/// could not give.
pub open spec fn login_zone(continent_code: Option<&str>) -> Seq<char> {
    match continent_code {
        Some(code) => spec_zone_of(code@),
        None => "EU"@,
    }
}

/// Whether the credentials are accepted.
pub fn credentials_ok(request: &LoginRequest) -> (r: bool)
    ensures
        r == spec_credentials_ok(request.username@, request.password@),
{
    !request.username.is_empty() && str_eq(request.password, "1234")
}

/// `rng.random_range(0..len)` on the thread's generator: some index below
/// `len`, which the caller cannot foresee.
#[verifier::external_body]
fn random_index(len: usize) -> (i: usize)
    requires
        len > 0,
    ensures
        i < len,
{
    rand::rng().random_range(0..len)
}

/// The offers of the records that describe available servers of `zone`,
/// in the records' order.
pub fn available_servers(records: &Vec<ServerRecord>, zone: &str) -> (r: Vec<ServerInfo>)
    ensures
        r@.len() == available_in(records@, zone@).len(),
        forall|i: int| 0 <= i < r@.len() ==> offer_of(available_in(records@, zone@)[i], #[trigger] r@[i]),
{
    proof {
        reveal_strlit("available");
    }
    let ghost pred = |r: ServerRecord| serves(r, zone@);
    let mut out: Vec<ServerInfo> = Vec::new();
    let mut i: usize = 0;
    while i < records.len()
        invariant
            i <= records@.len(),
            pred == (|r: ServerRecord| serves(r, zone@)),
            out@.len() == records@.subrange(0, i as int).filter(pred).len(),
            forall|k: int| 0 <= k < out@.len() ==> offer_of(records@.subrange(0, i as int).filter(pred)[k], #[trigger] out@[k]),
        decreases records@.len() - i,
    {
        let rec = &records[i];
        let keep = match (&rec.status, &rec.zone) {
            (Some(st), Some(z)) => str_eq(st.as_str(), "available") && str_eq(z.as_str(), zone),
            _ => false,
        };
        proof {
            reveal_with_fuel(Seq::<_>::filter, 1);
            assert(records@.subrange(0, i + 1).drop_last() =~= records@.subrange(0, i as int));
            assert(records@.subrange(0, i + 1).last() == records@[i as int]);
            assert(keep == pred(records@[i as int]));
        }
        if keep {
            let z = match &rec.zone {
                Some(z) => z.clone(),
                None => String::new(),
            };
            out.push(ServerInfo { ip: rec.ip.clone(), port: rec.port, zone: z });
        }
        i = i + 1;
    }
    assert(records@.subrange(0, records@.len() as int) =~= records@);
    out
}

/// The server at `index` among the available ones, taken out of the list;
/// `None` when the list is empty.
pub fn pick_server(valid_servers: Vec<ServerInfo>, index: usize) -> (r: Option<ServerInfo>)
    requires
        valid_servers@.len() > 0 ==> index < valid_servers@.len(),
    ensures
        valid_servers@.len() == 0 <==> r.is_none(),
        r matches Some(s) ==> s == valid_servers@[index as int],
{
    let mut v = valid_servers;
    if v.len() == 0 {
        return None;
    }
    Some(v.remove(index))
}

/// Picks at random one of the available servers of `zone` among the
/// registry's records; `None` when there is none.
pub fn find_available_server(zone: &str, records: &Vec<ServerRecord>) -> (r: Option<ServerInfo>)
    ensures
        available_in(records@, zone@).len() == 0 <==> r.is_none(),
        r matches Some(s) ==> exists|i: int|
            0 <= i < available_in(records@, zone@).len() && offer_of(
                available_in(records@, zone@)[i],
                s,
            ),
{
    let valid_servers = available_servers(records, zone);
    if valid_servers.len() == 0 {
        return None;
    }
    let index = random_index(valid_servers.len());
    let r = pick_server(valid_servers, index);
    proof {
        let i = index as int;
        assert(offer_of(available_in(records@, zone@)[i], r.unwrap()));
    }
    r
}

/// A fresh player id: the text of a random version-4 UUID.
fn new_player_id() -> (r: String)
    ensures
        exists|id: u128| (id >> 76u128) & 0xf == 4 && r@ == uuid_text(id),
{
    let id = new_uuid_v4();
    uuid_to_string(id)
}

/// The outcome of a login: refused with 401 on bad credentials; else the
/// player's zone comes from its continent (`EU` when unknown), and the
/// answer is a fresh player id with an available server of that zone
/// picked at random, or 503 when the zone has none.
pub fn login(
    request: &LoginRequest,
    continent_code: Option<&str>,
    records: &Vec<ServerRecord>,
) -> (r: Result<LoginResponse, (u16, ErrorResponse)>)
    ensures
        !spec_credentials_ok(request.username@, request.password@) <==> (r matches Err((code, _))
            && code == STATUS_UNAUTHORIZED),
        r matches Err((code, e)) ==> code == STATUS_UNAUTHORIZED ==> e.error@
            == "Nom d'utilisateur ou mot de passe incorrect"@,
        spec_credentials_ok(request.username@, request.password@) ==> (available_in(
            records@,
            login_zone(continent_code),
        ).len() == 0 <==> (r matches Err((code, _)) && code == STATUS_SERVICE_UNAVAILABLE)),
        r matches Err((code, e)) ==> code == STATUS_SERVICE_UNAVAILABLE ==> e.error@
            == "No server available"@,
        r matches Ok(resp) ==> exists|id: u128| (id >> 76u128) & 0xf == 4 && resp.player_id@ == uuid_text(id),
        r matches Ok(resp) ==> exists|i: int|
            0 <= i < available_in(records@, login_zone(continent_code)).len() && offer_of(
                available_in(records@, login_zone(continent_code))[i],
                resp.server,
            ),
{
    if !credentials_ok(request) {
        return Err(
            (
                STATUS_UNAUTHORIZED,
                ErrorResponse { error: "Nom d'utilisateur ou mot de passe incorrect".to_owned() },
            ),
        );
    }
    let player_zone = zone_for(continent_code);
    match find_available_server(player_zone.as_str(), records) {
        Some(server_info) => {
            let player_id = new_player_id();
            let ghost avail = available_in(records@, player_zone@);
            let ghost k = choose|i: int| 0 <= i < avail.len() && offer_of(avail[i], server_info);
            let resp = LoginResponse { player_id, server: server_info };
            assert(0 <= k < avail.len() && offer_of(avail[k], resp.server));
            Ok(resp)
        },
        None => Err(
            (STATUS_SERVICE_UNAVAILABLE, ErrorResponse { error: "No server available".to_owned() }),
        ),
    }
}

} // verus!
