//! The daemon's configuration, out of environment variables.

use vstd::prelude::*;
use vstd::string::*;

use crate::table;
use crate::text;

verus! {

/// The daemon's configuration.
#[derive(Debug, Clone)]
pub struct Config {
    pub panel_ws_url: String,
    /// Issued by the panel; without one the daemon does not start.
    pub node_token: String,
    pub docker_socket: String,
    /// In seconds.
    pub heartbeat_interval: u64,
    pub volumes_root: String,
    pub backups_root: String,
    /// Resolvers of created containers. None stand for the engine's default.
    pub container_dns: Vec<String>,
    pub database: Option<DatabaseConfig>,
}

/// How to reach the node's database server. Only there where the operator has
/// named an admin user, in which case the node can provide databases.
#[derive(Debug, Clone)]
pub struct DatabaseConfig {
    /// The host that the daemon itself connects to.
    pub admin_host: String,
    pub admin_port: u16,
    pub admin_user: String,
    pub admin_password: String,
    /// The host that users are told to connect to.
    pub public_host: String,
    /// The port that users are told to connect to, which can differ behind a
    /// proxy.
    pub public_port: u16,
}

/// The value of a variable, or else another text.
pub open spec fn value_or(env: Seq<(String, String)>, key: Seq<char>, fallback: Seq<char>) -> Seq<char> {
    match table::lookup(env, key) {
        Some(value) => value,
        None => fallback,
    }
}

/// The number that a variable writes down, or else another number. What is no
/// number of the range counts as absent.
pub open spec fn number_or(env: Seq<(String, String)>, key: Seq<char>, max: int, fallback: int) -> int {
    match table::lookup(env, key) {
        Some(value) => match text::numeral_within(value, 10, max) {
            Some(n) => n,
            None => fallback,
        },
        None => fallback,
    }
}

/// The items of a list, without the white space around them. Empty ones do not
/// count.
pub open spec fn items(pieces: Seq<Seq<char>>) -> Seq<Seq<char>>
    decreases pieces.len(),
{
    if pieces.len() == 0 {
        seq![]
    } else {
        let before = items(pieces.drop_last());
        let item = text::trim(pieces.last());
        if item.len() == 0 {
            before
        } else {
            before.push(item)
        }
    }
}

/// The value of a variable, or else another text.
fn env_or(env: &Vec<(String, String)>, key: &str, fallback: &str) -> (out: String)
    ensures
        out@ == value_or(env@, key@, fallback@),
{
    match table::find(env, key) {
        Some(value) => value,
        None => fallback.to_owned(),
    }
}

/// The number that a variable writes down, or else another number.
fn env_number(env: &Vec<(String, String)>, key: &str, max: u64, fallback: u64) -> (out: u64)
    requires
        fallback <= max,
    ensures
        out == number_or(env@, key@, max as int, fallback as int),
        out <= max,
{
    match table::find(env, key) {
        Some(value) => match text::parse_decimal(value.as_str(), max) {
            Some(n) => n,
            None => fallback,
        },
        None => fallback,
    }
}

/// The items of a list that is separated by commas.
pub fn comma_items(list: &str) -> (out: Vec<String>)
    ensures
        text::texts(out@) == items(text::split(list@, ',')),
{
    let pieces: Vec<String> = text::split_text(list, ',');
    let ghost model = text::texts(pieces@);
    let mut out: Vec<String> = Vec::new();
    let mut i: usize = 0;
    assert(text::texts(out@) =~= items(model.take(0)));
    while i < pieces.len()
        invariant
            i <= pieces@.len(),
            model == text::texts(pieces@),
            text::texts(out@) == items(model.take(i as int)),
        decreases pieces@.len() - i,
    {
        assert(model.take(i + 1).drop_last() =~= model.take(i as int));
        assert(model[i as int] == pieces@[i as int]@);
        let chars: Vec<char> = text::chars_of(pieces[i].as_str());
        let (from, to): (usize, usize) = text::trim_range(&chars, 0, chars.len());
        assert(chars@.subrange(0, chars@.len() as int) =~= chars@);
        if from < to {
            let ghost before = text::texts(out@);
            let item: String = text::text_of(&chars, from, to);
            out.push(item);
            assert(text::texts(out@) =~= before.push(item@));
        }
        i = i + 1;
    }
    assert(model.take(i as int) =~= model);
    out
}

impl Config {
    /// Reads the configuration out of the variables of an environment. Each has
    /// a default, except for the token, which is empty where it is not set.
    pub fn from_env(env: &Vec<(String, String)>) -> (out: Self)
        ensures
            out.panel_ws_url@ == value_or(env@, "SKY_PANEL_WS_URL"@, "ws://127.0.0.1:8080/agent/ws"@),
            out.node_token@ == value_or(env@, "SKY_NODE_TOKEN"@, ""@),
            out.docker_socket@ == value_or(env@, "SKY_DOCKER_SOCKET"@, "/var/run/docker.sock"@),
            out.heartbeat_interval == number_or(env@, "SKY_HEARTBEAT_INTERVAL"@, u64::MAX as int, 5),
            out.volumes_root@ == value_or(env@, "SKY_VOLUMES_ROOT"@, "/srv/sky-panel/volumes"@),
            out.backups_root@ == value_or(env@, "SKY_BACKUPS_ROOT"@, "/srv/sky-panel/backups"@),
            text::texts(out.container_dns@) == items(
                text::split(value_or(env@, "SKY_CONTAINER_DNS"@, "1.1.1.1,8.8.8.8"@), ','),
            ),
            DatabaseConfig::reads(env@, out.database),
            is_configured(env@, out),
    {
        let dns: String = env_or(env, "SKY_CONTAINER_DNS", "1.1.1.1,8.8.8.8");
        Config {
            panel_ws_url: env_or(env, "SKY_PANEL_WS_URL", "ws://127.0.0.1:8080/agent/ws"),
            node_token: env_or(env, "SKY_NODE_TOKEN", ""),
            docker_socket: env_or(env, "SKY_DOCKER_SOCKET", "/var/run/docker.sock"),
            heartbeat_interval: env_number(env, "SKY_HEARTBEAT_INTERVAL", u64::MAX, 5),
            volumes_root: env_or(env, "SKY_VOLUMES_ROOT", "/srv/sky-panel/volumes"),
            backups_root: env_or(env, "SKY_BACKUPS_ROOT", "/srv/sky-panel/backups"),
            container_dns: comma_items(dns.as_str()),
            database: DatabaseConfig::from_env(env),
        }
    }
}

impl DatabaseConfig {
    /// Whether a configuration is the one that an environment gives: none where
    /// no admin user is named, and users are told the admin's host and port
    /// where nothing else is set.
    pub open spec fn reads(env: Seq<(String, String)>, out: Option<DatabaseConfig>) -> bool {
        let user = value_or(env, "SKY_DB_ADMIN_USER"@, ""@);
        match out {
            None => user.len() == 0,
            Some(config) => {
                let host = value_or(env, "SKY_DB_PUBLIC_HOST"@, ""@);
                &&& user.len() > 0
                &&& config.admin_user@ == user
                &&& config.admin_host@ == value_or(env, "SKY_DB_ADMIN_HOST"@, "127.0.0.1"@)
                &&& config.admin_port == number_or(env, "SKY_DB_ADMIN_PORT"@, u16::MAX as int, 3306)
                &&& config.admin_password@ == value_or(env, "SKY_DB_ADMIN_PASSWORD"@, ""@)
                &&& config.public_host@ == (if host.len() == 0 {
                    config.admin_host@
                } else {
                    host
                })
                &&& config.public_port == number_or(
                    env,
                    "SKY_DB_PUBLIC_PORT"@,
                    u16::MAX as int,
                    config.admin_port as int,
                )
            },
        }
    }

    /// Reads the configuration out of the variables of an environment.
    pub fn from_env(env: &Vec<(String, String)>) -> (out: Option<Self>)
        ensures
            DatabaseConfig::reads(env@, out),
    {
        proof {
            reveal_strlit("");
        }
        let admin_user: String = env_or(env, "SKY_DB_ADMIN_USER", "");
        if admin_user.as_str().is_empty() {
            return None;
        }
        let admin_host: String = env_or(env, "SKY_DB_ADMIN_HOST", "127.0.0.1");
        let named: String = env_or(env, "SKY_DB_PUBLIC_HOST", "");
        let public_host: String = if named.as_str().is_empty() {
            admin_host.clone()
        } else {
            named
        };
        let admin_port: u16 = env_number(env, "SKY_DB_ADMIN_PORT", u16::MAX as u64, 3306) as u16;
        let public_port: u16 = env_number(env, "SKY_DB_PUBLIC_PORT", u16::MAX as u64, admin_port as u64) as u16;
        Some(
            DatabaseConfig {
                admin_host,
                admin_port,
                admin_user,
                admin_password: env_or(env, "SKY_DB_ADMIN_PASSWORD", ""),
                public_host,
                public_port,
            },
        )
    }
}

/// A setting is what the first variable of its name says, and its default where
/// there is none.
pub proof fn law_variable_decides_over_the_default(
    env: Seq<(String, String)>,
    key: Seq<char>,
    fallback: Seq<char>,
    i: int,
)
    ensures
        0 <= i < env.len() && env[i].0@ == key && (forall|j: int| 0 <= j < i ==> (#[trigger] env[j]).0@ != key)
            ==> value_or(env, key, fallback) == env[i].1@,
        (forall|j: int| 0 <= j < env.len() ==> (#[trigger] env[j]).0@ != key) ==> value_or(env, key, fallback)
            == fallback,
{
    table::law_first_pair_counts(env, key, i);
}

/// A number is what the first variable of its name writes down in decimal, where
/// that is within the bound. What is no numeral, or beyond the bound, counts as
/// absent.
pub proof fn law_number_is_read_off_its_variable(
    env: Seq<(String, String)>,
    key: Seq<char>,
    max: int,
    fallback: int,
    i: int,
    n: nat,
)
    requires
        0 <= i < env.len(),
        env[i].0@ == key,
        forall|j: int| 0 <= j < i ==> (#[trigger] env[j]).0@ != key,
    ensures
        env[i].1@ == text::decimal(n) ==> number_or(env, key, max, fallback) == (if n <= max {
            n as int
        } else {
            fallback
        }),
        text::numeral(env[i].1@, 10) is None ==> number_or(env, key, max, fallback) == fallback,
{
    table::law_first_pair_counts(env, key, i);
    text::law_numeral_reads_back(n, max);
}

/// Where no variable has the name, a number is the default.
pub proof fn law_number_has_a_default(env: Seq<(String, String)>, key: Seq<char>, max: int, fallback: int)
    requires
        forall|j: int| 0 <= j < env.len() ==> (#[trigger] env[j]).0@ != key,
    ensures
        number_or(env, key, max, fallback) == fallback,
{
    table::law_first_pair_counts(env, key, 0);
}

/// The items of a list are all its pieces, trimmed and in order, but those of which
/// nothing is left.
pub proof fn law_items_are_the_pieces(pieces: Seq<Seq<char>>)
    ensures
        items(pieces) == pieces.filter_map(
            |piece: Seq<char>|
                if text::trim(piece).len() > 0 {
                    Some(text::trim(piece))
                } else {
                    None
                },
        ),
    decreases pieces.len(),
{
    if pieces.len() > 0 {
        law_items_are_the_pieces(pieces.drop_last());
        let kept = |piece: Seq<char>|
            if text::trim(piece).len() > 0 {
                Some(text::trim(piece))
            } else {
                None
            };
        assert(items(pieces) =~= pieces.filter_map(kept));
    }
}

/// The node provides databases exactly where an admin user is named, with all the
/// settings as given; users are told the admin's host and port unless others are
/// set for them.
pub proof fn law_databases_are_configured_as_given(env: Seq<(String, String)>, out: Option<DatabaseConfig>)
    requires
        DatabaseConfig::reads(env, out),
    ensures
        out is Some <==> value_or(env, "SKY_DB_ADMIN_USER"@, seq![]).len() > 0,
        out matches Some(config) ==> {
            &&& config.admin_user@ == value_or(env, "SKY_DB_ADMIN_USER"@, seq![])
            &&& config.admin_password@ == value_or(env, "SKY_DB_ADMIN_PASSWORD"@, seq![])
            &&& config.admin_host@ == value_or(env, "SKY_DB_ADMIN_HOST"@, "127.0.0.1"@)
            &&& config.admin_port == number_or(env, "SKY_DB_ADMIN_PORT"@, 65535, 3306)
            &&& table::lookup(env, "SKY_DB_PUBLIC_HOST"@) is None ==> config.public_host@ == config.admin_host@
            &&& (table::lookup(env, "SKY_DB_PUBLIC_HOST"@) matches Some(host) ==> host.len() > 0 ==> config.public_host@
                == host)
            &&& config.public_port == number_or(env, "SKY_DB_PUBLIC_PORT"@, 65535, config.admin_port as int)
        },
{
    reveal_strlit("");
    assert(""@ =~= Seq::<char>::empty());
}

/// Whether a configuration is the one that an environment gives.
pub open spec fn is_configured(env: Seq<(String, String)>, config: Config) -> bool {
    &&& config.panel_ws_url@ == value_or(env, "SKY_PANEL_WS_URL"@, "ws://127.0.0.1:8080/agent/ws"@)
    &&& config.node_token@ == value_or(env, "SKY_NODE_TOKEN"@, ""@)
    &&& config.docker_socket@ == value_or(env, "SKY_DOCKER_SOCKET"@, "/var/run/docker.sock"@)
    &&& config.heartbeat_interval == number_or(env, "SKY_HEARTBEAT_INTERVAL"@, u64::MAX as int, 5)
    &&& config.volumes_root@ == value_or(env, "SKY_VOLUMES_ROOT"@, "/srv/sky-panel/volumes"@)
    &&& config.backups_root@ == value_or(env, "SKY_BACKUPS_ROOT"@, "/srv/sky-panel/backups"@)
    &&& text::texts(config.container_dns@) == items(
        text::split(value_or(env, "SKY_CONTAINER_DNS"@, "1.1.1.1,8.8.8.8"@), ','),
    )
    &&& DatabaseConfig::reads(env, config.database)
}

/// Each variable sets its own setting and no other: two environments that agree on
/// a variable give the same setting, whatever else they hold, and a variable that
/// is there is taken as it is.
pub proof fn law_each_variable_sets_its_own(
    env: Seq<(String, String)>,
    config: Config,
    other_env: Seq<(String, String)>,
    other: Config,
)
    requires
        is_configured(env, config),
        is_configured(other_env, other),
    ensures
        table::lookup(env, "SKY_PANEL_WS_URL"@) matches Some(v) ==> config.panel_ws_url@ == v,
        table::lookup(env, "SKY_NODE_TOKEN"@) matches Some(v) ==> config.node_token@ == v,
        table::lookup(env, "SKY_NODE_TOKEN"@) is None ==> config.node_token@.len() == 0,
        table::lookup(env, "SKY_DOCKER_SOCKET"@) matches Some(v) ==> config.docker_socket@ == v,
        table::lookup(env, "SKY_VOLUMES_ROOT"@) matches Some(v) ==> config.volumes_root@ == v,
        table::lookup(env, "SKY_BACKUPS_ROOT"@) matches Some(v) ==> config.backups_root@ == v,
        table::lookup(env, "SKY_HEARTBEAT_INTERVAL"@) matches Some(v) ==> (text::numeral_within(
            v,
            10,
            u64::MAX as int,
        ) matches Some(n) ==> config.heartbeat_interval == n),
        table::lookup(env, "SKY_CONTAINER_DNS"@) matches Some(v) ==> text::texts(config.container_dns@) == items(
            text::split(v, ','),
        ),
        table::lookup(env, "SKY_PANEL_WS_URL"@) == table::lookup(other_env, "SKY_PANEL_WS_URL"@) ==> config.panel_ws_url@
            == other.panel_ws_url@,
        table::lookup(env, "SKY_DOCKER_SOCKET"@) == table::lookup(other_env, "SKY_DOCKER_SOCKET"@)
            ==> config.docker_socket@ == other.docker_socket@,
        table::lookup(env, "SKY_VOLUMES_ROOT"@) == table::lookup(other_env, "SKY_VOLUMES_ROOT"@) ==> config.volumes_root@
            == other.volumes_root@,
        table::lookup(env, "SKY_BACKUPS_ROOT"@) == table::lookup(other_env, "SKY_BACKUPS_ROOT"@) ==> config.backups_root@
            == other.backups_root@,
        table::lookup(env, "SKY_HEARTBEAT_INTERVAL"@) == table::lookup(other_env, "SKY_HEARTBEAT_INTERVAL"@)
            ==> config.heartbeat_interval == other.heartbeat_interval,
{
    reveal_strlit("");
}

/// What no variable sets has its default.
pub proof fn law_settings_have_their_defaults(env: Seq<(String, String)>, config: Config)
    requires
        is_configured(env, config),
    ensures
        table::lookup(env, "SKY_PANEL_WS_URL"@) is None ==> config.panel_ws_url@ == "ws://127.0.0.1:8080/agent/ws"@,
        table::lookup(env, "SKY_DOCKER_SOCKET"@) is None ==> config.docker_socket@ == "/var/run/docker.sock"@,
        table::lookup(env, "SKY_HEARTBEAT_INTERVAL"@) is None ==> config.heartbeat_interval == 5,
        table::lookup(env, "SKY_VOLUMES_ROOT"@) is None ==> config.volumes_root@ == "/srv/sky-panel/volumes"@,
        table::lookup(env, "SKY_BACKUPS_ROOT"@) is None ==> config.backups_root@ == "/srv/sky-panel/backups"@,
        table::lookup(env, "SKY_CONTAINER_DNS"@) is None ==> text::texts(config.container_dns@) == items(
            text::split("1.1.1.1,8.8.8.8"@, ','),
        ),
{
}

} // verus!
