use vstd::prelude::*;
use crate::secret::Secret;
use rdkafka::ClientConfig;

verus! {

/// Where the object store is and how to reach it.
#[derive(Clone, Default)]
pub struct S3Config {
    pub url: String,
    pub bucket: String,
    pub access_key: Option<Secret>,
    pub secret_key: Option<Secret>,
    pub client_connection_timeout_seconds: u64,
}

/// Where the list store is, how to reach it, and how often to poll it.
#[derive(Clone, Default)]
pub struct RedisConfig {
    pub host: String,
    pub port: String,
    pub username: Option<Secret>,
    pub password: Option<Secret>,
    pub poll_delay_ms: u64,
    pub read_delay_ms: u64,
    pub queues: RedisQueues,
}

/// The two list keys of the buffer.
#[derive(Clone, Default)]
pub struct RedisQueues {
    pub inbox: String,
    pub outbox: String,
}

/// How to reach the stream brokers, and how many messages make a batch.
#[derive(Clone, Default)]
pub struct KafkaConfig {
    pub group_id: String,
    pub batch_size: usize,
    pub bootstrap_servers: Vec<String>,
    pub auth: Option<KafkaAuthConfig>,
    pub topics: KafkaTopics,
}

/// SASL authentication towards the stream brokers.
#[derive(Clone)]
pub struct KafkaAuthConfig {
    username: Option<Secret>,
    password: Option<Secret>,
    protocol: String,
    mechanism: String,
}

/// The value of an authentication setting.
pub struct AuthView {
    pub username: Option<Seq<char>>,
    pub password: Option<Seq<char>>,
    pub protocol: Seq<char>,
    pub mechanism: Seq<char>,
}

impl View for KafkaAuthConfig {
    type V = AuthView;

    closed spec fn view(&self) -> AuthView {
        AuthView {
            username: secret_text(self.username),
            password: secret_text(self.password),
            protocol: self.protocol@,
            mechanism: self.mechanism@,
        }
    }
}

impl KafkaAuthConfig {
    pub fn new(
        username: Option<Secret>,
        password: Option<Secret>,
        protocol: String,
        mechanism: String,
    ) -> (r: KafkaAuthConfig)
        ensures
            r@ == (AuthView {
                username: secret_text(username),
                password: secret_text(password),
                protocol: protocol@,
                mechanism: mechanism@,
            }),
    {
        KafkaAuthConfig { username, password, protocol, mechanism }
    }

    /// The user name, if one is set.
    pub fn username(&self) -> (r: Option<&Secret>)
        ensures
            r matches Some(x) ==> Some(x@) == self@.username,
            r is None ==> self@.username is None,
    {
        self.username.as_ref()
    }

    /// The password, if one is set.
    pub fn password(&self) -> (r: Option<&Secret>)
        ensures
            r matches Some(x) ==> Some(x@) == self@.password,
            r is None ==> self@.password is None,
    {
        self.password.as_ref()
    }

    pub fn protocol(&self) -> (r: &str)
        ensures
            r@ == self@.protocol,
    {
        self.protocol.as_str()
    }

    pub fn mechanism(&self) -> (r: &str)
        ensures
            r@ == self@.mechanism,
    {
        self.mechanism.as_str()
    }
}

/// The upstream and downstream topic names.
#[derive(Clone, Default)]
pub struct KafkaTopics {
    pub input: String,
    pub output: String,
}

#[derive(Default)]
pub struct Logging {
    pub log_level: String,
}

/// All settings of the relay.
#[derive(Default)]
pub struct Settings {
    pub s3: S3Config,
    pub redis: RedisConfig,
    pub kafka: KafkaConfig,
    pub logging: Logging,
}

/// The user-info part of a store URL, with its trailing `@` where there is one.
pub open spec fn user_info(user: Option<Seq<char>>, pass: Option<Seq<char>>) -> Seq<char> {
    match (user, pass) {
        (Some(u), Some(p)) => u + seq![':'] + p + seq!['@'],
        (None, Some(p)) => seq![':'] + p + seq!['@'],
        (Some(u), None) => u + seq!['@'],
        (None, None) => Seq::empty(),
    }
}

/// The URL of the list store: `redis://[user-info]host:port/`.
pub open spec fn redis_url(
    host: Seq<char>,
    port: Seq<char>,
    user: Option<Seq<char>>,
    pass: Option<Seq<char>>,
) -> Seq<char> {
    seq!['r', 'e', 'd', 'i', 's', ':', '/', '/'] + user_info(user, pass) + host + seq![':'] + port
        + seq!['/']
}

/// The text of an optional secret.
pub open spec fn secret_text(s: Option<Secret>) -> Option<Seq<char>> {
    match s {
        Some(x) => Some(x@),
        None => None,
    }
}

/// The names joined with `,` between each two.
pub open spec fn joined(names: Seq<Seq<char>>) -> Seq<char>
    decreases names.len(),
{
    if names.len() == 0 {
        Seq::empty()
    } else if names.len() == 1 {
        names[0]
    } else {
        joined(names.drop_last()) + seq![','] + names.last()
    }
}

/// The stream clients' configuration: a map from setting names to values.
#[verifier::external_type_specification]
#[verifier::external_body]
pub struct ExClientConfig(ClientConfig);

/// A configuration map without entries.
pub open spec fn no_entries() -> Map<Seq<char>, Seq<char>> {
    Map::empty()
}

/// The entries that a client configuration holds.
pub uninterp spec fn client_entries(c: ClientConfig) -> Map<Seq<char>, Seq<char>>;

/// Relies on ClientConfig::new: a configuration with no entries.
#[verifier::external_body]
fn empty_client_config() -> (config: ClientConfig)
    ensures
        client_entries(config) == no_entries(),
{
    ClientConfig::new()
}

/// Relies on ClientConfig::set: inserts `value` under `key`, replacing an
/// earlier value.
#[verifier::external_body]
fn set_entry(config: &mut ClientConfig, key: &str, value: &str)
    ensures
        client_entries(*final(config)) == client_entries(*old(config)).insert(key@, value@),
{
    config.set(key, value);
}

/// Appends `s` to `out`.
fn push_str(out: &mut String, s: &str)
    ensures
        final(out)@ == old(out)@ + s@,
{
    out.append(s);
}

impl RedisConfig {
    /// The URL to connect to the list store with, credentials included.
    pub fn build_redis_connect_url(&self) -> (r: String)
        ensures
            r@ == redis_url(
                self.host@,
                self.port@,
                secret_text(self.username),
                secret_text(self.password),
            ),
    {
        let mut out = String::new();
        push_str(&mut out, "redis://");
        match (&self.username, &self.password) {
            (Some(user), Some(pass)) => {
                push_str(&mut out, user.revealed());
                push_str(&mut out, ":");
                push_str(&mut out, pass.revealed());
                push_str(&mut out, "@");
            },
            (None, Some(pass)) => {
                push_str(&mut out, ":");
                push_str(&mut out, pass.revealed());
                push_str(&mut out, "@");
            },
            (Some(user), None) => {
                push_str(&mut out, user.revealed());
                push_str(&mut out, "@");
            },
            (None, None) => {},
        }
        push_str(&mut out, self.host.as_str());
        push_str(&mut out, ":");
        push_str(&mut out, self.port.as_str());
        push_str(&mut out, "/");
        proof {
            reveal_strlit("redis://");
            reveal_strlit(":");
            reveal_strlit("@");
            reveal_strlit("/");
            assert(out@ =~= redis_url(
                self.host@,
                self.port@,
                secret_text(self.username),
                secret_text(self.password),
            ));
        }
        out
    }
}

/// The entries that the stream clients are configured with.
pub open spec fn kafka_entries(k: KafkaConfig) -> Map<Seq<char>, Seq<char>> {
    let base = Map::<Seq<char>, Seq<char>>::empty().insert("group.id"@, k.group_id@).insert(
        "bootstrap.servers"@,
        joined(k.bootstrap_servers@.map_values(|s: String| s@)),
    );
    match k.auth {
        Some(a) => base.insert("security.protocol"@, a@.protocol).insert(
            "sasl.mechanism"@,
            a@.mechanism,
        ).insert("sasl.username"@, a@.username->0).insert("sasl.password"@, a@.password->0),
        None => base,
    }
}

impl KafkaConfig {
    /// Whether authentication, where it is configured, names both a user
    /// and a password.
    pub open spec fn auth_complete(&self) -> bool {
        match self.auth {
            Some(a) => a@.username is Some && a@.password is Some,
            None => true,
        }
    }

    /// Tests `auth_complete`, the condition of `build_kafka_config`.
    pub fn has_complete_auth(&self) -> (r: bool)
        ensures
            r == self.auth_complete(),
    {
        match &self.auth {
            Some(a) => a.username.is_some() && a.password.is_some(),
            None => true,
        }
    }

    /// The broker addresses joined with `,`.
    pub fn joined_servers(&self) -> (r: String)
        ensures
            r@ == joined(self.bootstrap_servers@.map_values(|s: String| s@)),
    {
        let ghost names = self.bootstrap_servers@.map_values(|s: String| s@);
        let mut out = String::new();
        let n = self.bootstrap_servers.len();
        let mut i: usize = 0;
        while i < n
            invariant
                n == self.bootstrap_servers@.len(),
                names == self.bootstrap_servers@.map_values(|s: String| s@),
                i <= n,
                out@ == joined(names.take(i as int)),
            decreases n - i,
        {
            proof {
                reveal_strlit(",");
            }
            assert(names.take(i + 1).drop_last() =~= names.take(i as int));
            if i > 0 {
                push_str(&mut out, ",");
            }
            push_str(&mut out, self.bootstrap_servers[i].as_str());
            proof {
                if i == 0 {
                    assert(out@ =~= joined(names.take(1)));
                } else {
                    assert(out@ =~= joined(names.take(i + 1)));
                }
            }
            i = i + 1;
        }
        assert(names.take(n as int) =~= names);
        out
    }

    /// The client configuration of the stream clients: group, brokers, and
    /// SASL authentication where it is configured.
    pub fn build_kafka_config(&self) -> (r: ClientConfig)
        requires
            self.auth_complete(),
        ensures
            client_entries(r) == kafka_entries(*self),
    {
        let mut config = empty_client_config();
        set_entry(&mut config, "group.id", self.group_id.as_str());
        let servers = self.joined_servers();
        set_entry(&mut config, "bootstrap.servers", servers.as_str());
        match &self.auth {
            Some(auth) => {
                set_entry(&mut config, "security.protocol", auth.protocol.as_str());
                set_entry(&mut config, "sasl.mechanism", auth.mechanism.as_str());
                match (&auth.username, &auth.password) {
                    (Some(user), Some(pass)) => {
                        set_entry(&mut config, "sasl.username", user.revealed());
                        set_entry(&mut config, "sasl.password", pass.revealed());
                    },
                    _ => {},
                }
            },
            None => {},
        }
        config
    }
}

} // verus!
