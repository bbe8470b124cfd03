//! The embedded TURN server's credentials and settings.
//!
//! Peers fall back to relayed media when direct UDP cannot punch through. The
//! relay mints one time-windowed credential pair per joining peer, after the
//! shared-secret convention that TURN servers use.

use vstd::prelude::*;

use crate::protocol::{ice_views, IceServer, IceServerView};
use crate::text::{decimal, hex, hex_encode, parse_unsigned, parsed, push_decimal, texts};

verus! {

/// The realm of the TURN server.
pub const REALM: &'static str = "vtcast";

/// How long a credential pair is valid, in seconds.
pub const CREDENTIAL_LIFETIME_SECS: u64 = 600;

/// The port of the TURN server where none is configured.
pub const DEFAULT_TURN_PORT: u16 = 3478;

/// Where the relay listens where nothing else is configured.
pub const DEFAULT_RELAY_BIND: &'static str = "0.0.0.0:17239";

/// The errors of the TURN implementation, carried through unread.
#[verifier::external_type_specification]
#[verifier::external_body]
pub struct ExTurnError(webrtc::turn::Error);

/// The password that belongs to a user name under a shared secret.
pub uninterp spec fn turn_password(username: Seq<char>, secret: Seq<char>) -> Seq<char>;

/// `webrtc::turn::auth::generate_long_term_credentials`. The user name is the
/// decimal notation of the second at which the pair expires, which is the time
/// now plus the lifetime, so at least the lifetime; the password is a function
/// of user name and secret. It fails where the clock stands before the epoch.
/// How the expiry relates to the time now is not stated; the lifetime that is
/// asked for is fixed.
#[verifier::external_body]
fn long_term_credentials(secret: &str, lifetime_secs: u64) -> (res: Result<
    (String, String),
    webrtc::turn::Error,
>)
    requires
        lifetime_secs == CREDENTIAL_LIFETIME_SECS,
    ensures
        res matches Ok((username, password)) ==> password@ == turn_password(username@, secret@)
            && exists|n: nat| n >= lifetime_secs && username@ == #[trigger] decimal(n),
{
    webrtc::turn::auth::generate_long_term_credentials(
        secret,
        std::time::Duration::from_secs(lifetime_secs),
    )
}

/// Thirty-two bytes of `rand::rng().fill_bytes`. Nothing is claimed of them.
#[verifier::external_body]
fn random_bytes() -> (res: [u8; 32]) {
    let mut bytes = [0u8; 32];
    rand::RngCore::fill_bytes(&mut rand::rng(), &mut bytes);
    bytes
}

/// A secret that differs from process to process: the hexadecimal notation of
/// thirty-two random bytes.
pub fn random_secret() -> (res: String)
    ensures
        exists|bytes: Seq<u8>| bytes.len() == 32 && res@ == #[trigger] hex(bytes),
{
    let bytes = random_bytes();
    let res = hex_encode(&bytes);
    assert(res@ == hex(bytes@));
    res
}

/// The public STUN server that every peer is told of.
pub open spec fn stun() -> IceServerView {
    IceServerView {
        urls: seq!["stun:stun.l.google.com:19302"@],
        username: None,
        credential: None,
    }
}

/// The embedded TURN server with a credential pair.
pub open spec fn turn(
    addr: Seq<char>,
    port: u16,
    username: Seq<char>,
    password: Seq<char>,
) -> IceServerView {
    IceServerView {
        urls: seq!["turn:"@ + addr + ":"@ + decimal(port as nat) + "?transport=udp"@],
        username: Some(username),
        credential: Some(password),
    }
}

/// The public STUN server.
fn default_stun() -> (res: IceServer)
    ensures
        res@ == stun(),
{
    let url = "stun:stun.l.google.com:19302".to_string();
    let res = IceServer { urls: vec![url], username: None, credential: None };
    assert(texts(res.urls@) =~= stun().urls);
    res
}

/// The ICE servers where there is no TURN server.
pub fn stun_only_ice_servers() -> (res: Vec<IceServer>)
    ensures
        ice_views(res@) == seq![stun()],
{
    let res = vec![default_stun()];
    assert(ice_views(res@) =~= seq![stun()]);
    res
}

/// The texts of a user name and its password.
pub open spec fn pair_view(credentials: Option<(String, String)>) -> Option<
    (Seq<char>, Seq<char>),
> {
    match credentials {
        Some((username, password)) => Some((username@, password@)),
        None => None,
    }
}

/// A running TURN server as clients see it.
pub struct TurnService {
    /// UDP port that the server listens on.
    pub port: u16,
    /// Address in the URL that clients get.
    pub advertised_addr: String,
    shared_secret: String,
    realm: String,
}

/// The content of a [`TurnService`].
#[verifier::ext_equal]
pub struct TurnServiceView {
    pub port: u16,
    pub advertised_addr: Seq<char>,
    pub shared_secret: Seq<char>,
    pub realm: Seq<char>,
}

impl View for TurnService {
    type V = TurnServiceView;

    closed spec fn view(&self) -> TurnServiceView {
        TurnServiceView {
            port: self.port,
            advertised_addr: self.advertised_addr@,
            shared_secret: self.shared_secret@,
            realm: self.realm@,
        }
    }
}

impl TurnService {
    /// The service on a port.
    pub fn new(port: u16, advertised_addr: String, shared_secret: String) -> (res: Self)
        ensures
            res@ == (TurnServiceView {
                port,
                advertised_addr: advertised_addr@,
                shared_secret: shared_secret@,
                realm: REALM@,
            }),
    {
        TurnService { port, advertised_addr, shared_secret, realm: REALM.to_string() }
    }

    /// The realm of the server.
    pub fn realm(&self) -> (res: &str)
        ensures
            res@ == self@.realm,
    {
        self.realm.as_str()
    }

    /// The ICE servers of a peer that gets `credentials`: STUN, and TURN if there
    /// are credentials for it.
    pub open spec fn ice_servers(&self, credentials: Option<(Seq<char>, Seq<char>)>) -> Seq<
        IceServerView,
    > {
        match credentials {
            Some((username, password)) => seq![
                stun(),
                turn(self@.advertised_addr, self@.port, username, password),
            ],
            None => seq![stun()],
        }
    }

    /// Whether a credential pair is one that this server honours.
    pub open spec fn honours(&self, username: Seq<char>, password: Seq<char>) -> bool {
        password == turn_password(username, self@.shared_secret) && exists|n: nat|
            n >= CREDENTIAL_LIFETIME_SECS && username == #[trigger] decimal(n)
    }

    /// Whether credentials, where there are any, are a pair that this server
    /// honours.
    pub open spec fn issues(&self, credentials: Option<(Seq<char>, Seq<char>)>) -> bool {
        credentials matches Some((username, password)) ==> self.honours(username, password)
    }

    /// The ICE servers of a peer that gets `credentials`.
    pub fn ice_servers_with(&self, credentials: Option<(String, String)>) -> (res: Vec<IceServer>)
        ensures
            ice_views(res@) == self.ice_servers(pair_view(credentials)),
    {
        match credentials {
            None => stun_only_ice_servers(),
            Some((username, password)) => {
                let mut url = "turn:".to_string();
                url.append(self.advertised_addr.as_str());
                url.append(":");
                push_decimal(&mut url, self.port as u64);
                url.append("?transport=udp");
                let relayed = IceServer {
                    urls: vec![url],
                    username: Some(username),
                    credential: Some(password),
                };
                assert(relayed.urls@[0] == url);
                assert(texts(relayed.urls@) =~= turn(
                    self.advertised_addr@,
                    self.port,
                    username@,
                    password@,
                ).urls);
                let direct = default_stun();
                let res = vec![direct, relayed];
                assert(res@[0] == direct && res@[1] == relayed);
                assert(ice_views(res@) =~= self.ice_servers(Some((username@, password@))));
                res
            },
        }
    }

    /// What a credential pair is made of: the secret, and for how many seconds
    /// the pair is valid.
    pub fn credential_request(&self) -> (res: (&str, u64))
        ensures
            res.0@ == self@.shared_secret,
            res.1 == CREDENTIAL_LIFETIME_SECS,
    {
        (self.shared_secret.as_str(), CREDENTIAL_LIFETIME_SECS)
    }

    /// A fresh credential pair. None if no pair could be made.
    pub fn fresh_credentials(&self) -> (res: Option<(String, String)>)
        ensures
            res matches Some((username, password)) ==> self.honours(username@, password@),
    {
        let (secret, lifetime_secs) = self.credential_request();
        match long_term_credentials(secret, lifetime_secs) {
            Ok((username, password)) => {
                assert(self.honours(username@, password@));
                Some((username, password))
            },
            Err(_) => None,
        }
    }

    /// The ICE servers that a client should use: STUN, and this server with a
    /// fresh credential pair. Only STUN if no pair could be made.
    pub fn ice_servers_for_peer(&self) -> (res: Vec<IceServer>)
        ensures
            exists|credentials: Option<(Seq<char>, Seq<char>)>|
                self.issues(credentials) && ice_views(res@) == #[trigger] self.ice_servers(
                    credentials,
                ),
    {
        let credentials = self.fresh_credentials();
        assert(self.issues(pair_view(credentials)));
        self.ice_servers_with(credentials)
    }
}

/// The port that a setting names; the default where there is none or it does
/// not name a port.
pub fn turn_port(setting: Option<&str>) -> (res: u16)
    ensures
        res == match setting {
            Some(s) => match parsed(s@, u16::MAX as nat) {
                Some(n) => n,
                None => DEFAULT_TURN_PORT as nat,
            },
            None => DEFAULT_TURN_PORT as nat,
        },
{
    match setting {
        Some(s) => match parse_unsigned(s, u16::MAX as u64) {
            Some(n) => n as u16,
            None => DEFAULT_TURN_PORT,
        },
        None => DEFAULT_TURN_PORT,
    }
}

/// An IP address.
#[derive(Debug, Clone, Copy)]
pub enum HostAddr {
    V4([u8; 4]),
    V6([u8; 16]),
}

/// Whether an address is that of the host itself (127.x.x.x, ::1) or none at
/// all (0.0.0.0, ::).
pub open spec fn is_local(addr: HostAddr) -> bool {
    match addr {
        HostAddr::V4(octets) => octets@[0] == 127 || octets@ == seq![0u8, 0, 0, 0],
        HostAddr::V6(octets) => (forall|i: int| 0 <= i < 15 ==> #[trigger] octets@[i] == 0)
            && octets@[15] <= 1,
    }
}

/// Whether an address is that of the host itself or none at all.
fn local(addr: HostAddr) -> (res: bool)
    ensures
        res == is_local(addr),
{
    match addr {
        HostAddr::V4(octets) => {
            let res = octets[0] == 127 || (octets[0] == 0 && octets[1] == 0 && octets[2] == 0
                && octets[3] == 0);
            proof {
                if octets@[0] == 0 && octets@[1] == 0 && octets@[2] == 0 && octets@[3] == 0 {
                    assert(octets@ =~= seq![0u8, 0, 0, 0]);
                }
            }
            res
        },
        HostAddr::V6(octets) => {
            let mut i: usize = 0;
            while i < 15
                invariant
                    i <= 15,
                    addr == HostAddr::V6(octets),
                    forall|j: int| 0 <= j < i ==> #[trigger] octets@[j] == 0,
                decreases 15 - i,
            {
                if octets[i] != 0 {
                    return false;
                }
                i += 1;
            }
            octets[15] <= 1
        },
    }
}

/// Whether the advertised address would send remote peers to themselves.
/// `ip` is the address that `advertised` denotes, if it denotes one.
pub fn advertised_unreachable(advertised: &str, ip: Option<HostAddr>) -> (res: bool)
    ensures
        res == ((ip matches Some(addr) && is_local(addr)) || advertised@ == "localhost"@),
{
    let by_ip = match ip {
        Some(addr) => local(addr),
        None => false,
    };
    by_ip || advertised.to_string() == "localhost".to_string()
}

/// A peer with credentials is told of the public STUN server first, without credentials,
/// and then of the relay's own TURN server: at the address and port that are advertised,
/// with the user name and password that it was given. A peer without is told of STUN
/// alone.
pub proof fn law_servers_of_a_peer(service: TurnService, username: Seq<char>, password: Seq<char>)
    ensures
        ({
            let with = service.ice_servers(Some((username, password)));
            let without = service.ice_servers(None);
            let port = decimal(service@.port as nat);
            &&& with.len() == 2 && without.len() == 1
            &&& with[0] == without[0]
            &&& with[0].urls == seq!["stun:stun.l.google.com:19302"@]
            &&& with[0].username is None && with[0].credential is None
            &&& with[1].urls.len() == 1
            &&& with[1].urls[0] == "turn:"@ + service@.advertised_addr + ":"@ + port
                + "?transport=udp"@
            &&& with[1].username == Some(username)
            &&& with[1].credential == Some(password)
            &&& crate::text::digits_value(port) == service@.port
        }),
{
    crate::text::law_decimal_reads_back(service@.port as nat);
}

/// A pair that a server honours is valid for ten minutes at the least, and its password is
/// the one of its user name under the server's own secret.
pub proof fn law_honoured_pairs(service: TurnService, username: Seq<char>, password: Seq<char>)
    requires
        service.honours(username, password),
    ensures
        crate::text::is_number(username),
        crate::text::digits_value(username) >= 600,
        password == turn_password(username, service@.shared_secret),
{
    let n = choose|n: nat| n >= CREDENTIAL_LIFETIME_SECS && username == #[trigger] decimal(n);
    crate::text::law_decimal_reads_back(n);
}

/// An address is the host's own exactly where it begins with 127, is ::1, or is all
/// zeroes.
pub proof fn law_local_addresses(v4: [u8; 4], v6: [u8; 16])
    ensures
        is_local(HostAddr::V4(v4)) <==> v4@[0] == 127 || (v4@[0] == 0 && v4@[1] == 0 && v4@[2] == 0
            && v4@[3] == 0),
        is_local(HostAddr::V6(v6)) <==> v6@.take(15) == Seq::new(15, |i: int| 0u8) && (v6@[15] == 0
            || v6@[15] == 1),
{
    if v4@[0] == 0 && v4@[1] == 0 && v4@[2] == 0 && v4@[3] == 0 {
        assert(v4@ =~= seq![0u8, 0, 0, 0]);
    }
    let zeroes = Seq::new(15, |i: int| 0u8);
    if is_local(HostAddr::V6(v6)) {
        assert(v6@.take(15) =~= zeroes);
    }
    if v6@.take(15) == zeroes {
        assert forall|i: int| 0 <= i < 15 implies #[trigger] v6@[i] == 0 by {
            assert(v6@.take(15)[i] == zeroes[i]);
        }
    }
}

/// The server listens on port 3478 where no port is configured, its realm is `vtcast`, and
/// a pair is valid for ten minutes.
pub proof fn law_settings()
    ensures
        DEFAULT_TURN_PORT == 3478,
        REALM@ == "vtcast"@,
        CREDENTIAL_LIFETIME_SECS == 10 * 60,
{
}

/// The port is the one that is set where that is a port, and 3478 else.
pub proof fn law_ports(setting: &str, n: nat, set: u16, unset: u16)
    requires
        call_ensures(turn_port, (Some(setting),), set),
        call_ensures(turn_port, (None::<&str>,), unset),
        setting@ == decimal(n),
    ensures
        unset == 3478,
        n < 0x1_0000 ==> set == n,
        n >= 0x1_0000 ==> set == 3478,
{
    crate::text::law_numbers_are_read(n, u16::MAX as nat, seq![], 0);
}

/// A pair is asked for with the server's own secret, for ten minutes.
pub proof fn law_asking_for_credentials(
    port: u16,
    addr: String,
    secret: String,
    service: TurnService,
    request: (&str, u64),
    realm: &str,
)
    requires
        call_ensures(TurnService::new, (port, addr, secret), service),
        call_ensures(TurnService::credential_request, (&service,), request),
        call_ensures(TurnService::realm, (&service,), realm),
    ensures
        request.0@ == secret@,
        request.1 == 600,
        realm@ == "vtcast"@,
        service@.port == port,
        service@.advertised_addr == addr@,
{
}

/// A peer with credentials is told of STUN and of this server, and one without of STUN alone.
pub proof fn law_telling_a_peer(
    service: TurnService,
    username: String,
    password: String,
    with: Vec<IceServer>,
    without: Vec<IceServer>,
)
    requires
        call_ensures(TurnService::ice_servers_with, (&service, Some((username, password))), with),
        call_ensures(TurnService::ice_servers_with, (&service, None), without),
    ensures
        without@.len() == 1,
        with@.len() == 2,
        with@[0]@ == without@[0]@,
        with@[0].username is None,
        with@[1].username matches Some(s) && s@ == username@,
        with@[1].credential matches Some(s) && s@ == password@,
        with@[1]@.urls == seq![
            "turn:"@ + service@.advertised_addr + ":"@ + decimal(service@.port as nat)
                + "?transport=udp"@,
        ],
{
    law_servers_of_a_peer(service, username@, password@);
    assert(ice_views(with@).len() == with@.len() && ice_views(without@).len() == without@.len());
    assert(ice_views(with@)[0] == with@[0]@ && ice_views(with@)[1] == with@[1]@);
    assert(ice_views(without@)[0] == without@[0]@);
    assert(with@[0]@.username is None && with@[1]@.username == Some(username@));
    assert(with@[1]@.credential == Some(password@));
}

/// An advertised address that is the host's own, or none, cannot be reached from elsewhere.
pub proof fn law_unreachable_addresses(advertised: &str, octets: [u8; 4], res: bool, named: bool)
    requires
        call_ensures(advertised_unreachable, (advertised, Some(HostAddr::V4(octets))), res),
        call_ensures(advertised_unreachable, (advertised, None), named),
    ensures
        octets@[0] == 127 ==> res,
        octets@[0] != 127 && octets@[0] != 0 && advertised@ != "localhost"@ ==> !res,
        named <==> advertised@ == "localhost"@,
{
    if octets@ == seq![0u8, 0, 0, 0] {
        assert(octets@[0] == 0);
    }
}

/// A pair that is issued is valid for ten minutes at the least, and its password is the one of
/// its user name under the server's own secret. A secret is 64 hexadecimal digits.
pub proof fn law_issuing(
    service: TurnService,
    pair: Option<(String, String)>,
    secret: String,
    stun_only: Vec<IceServer>,
    i: int,
)
    requires
        call_ensures(TurnService::fresh_credentials, (&service,), pair),
        call_ensures(random_secret, (), secret),
        call_ensures(stun_only_ice_servers, (), stun_only),
        0 <= i < 64,
    ensures
        pair matches Some((username, password)) ==> {
            &&& crate::text::is_number(username@)
            &&& crate::text::digits_value(username@) >= 600
            &&& password@ == turn_password(username@, service@.shared_secret)
        },
        secret@.len() == 64,
        '0' <= secret@[i] <= '9' || 'a' <= secret@[i] <= 'f',
        stun_only@.len() == 1,
        stun_only@[0].username is None && stun_only@[0].credential is None,
{
    if let Some((username, password)) = pair {
        law_honoured_pairs(service, username@, password@);
    }
    let bytes = choose|bytes: Seq<u8>| bytes.len() == 32 && secret@ == #[trigger] hex(bytes);
    crate::text::law_hex_digits(bytes, i / 2);
    assert(ice_views(stun_only@).len() == stun_only@.len());
    assert(ice_views(stun_only@)[0] == stun_only@[0]@);
    assert(stun_only@[0]@.username is None && stun_only@[0]@.credential is None);
}

/// A peer is told of STUN alone, or of STUN and of this server with a pair that it honours.
pub proof fn law_servers_told(service: TurnService, res: Vec<IceServer>)
    requires
        call_ensures(TurnService::ice_servers_for_peer, (&service,), res),
    ensures
        1 <= res@.len() <= 2,
        res@[0].username is None,
        res@.len() == 2 ==> (res@[1].username matches Some(username)
            && res@[1].credential matches Some(password) && service.honours(username@, password@)),
        res@.len() == 2 ==> res@[1]@.urls == seq![
            "turn:"@ + service@.advertised_addr + ":"@ + decimal(service@.port as nat)
                + "?transport=udp"@,
        ],
{
    let credentials = choose|credentials: Option<(Seq<char>, Seq<char>)>|
        service.issues(credentials) && ice_views(res@) == #[trigger] service.ice_servers(
            credentials,
        );
    assert(ice_views(res@).len() == res@.len());
    assert(ice_views(res@)[0] == res@[0]@);
    if let Some((username, password)) = credentials {
        law_servers_of_a_peer(service, username, password);
        assert(ice_views(res@)[1] == res@[1]@);
        assert(res@[1]@.username == Some(username) && res@[1]@.credential == Some(password));
    }
    assert(res@[0]@.username is None);
}

} // verus!
