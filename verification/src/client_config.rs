use rdkafka::ClientConfig;
use uuid::Uuid;
use vstd::prelude::*;
use vstd::string::StringExecFns;

verus! {

/// `rdkafka::ClientConfig`: the parameters from which a client is created.
/// What it holds is [`config_entries`].
#[verifier::external_type_specification]
#[verifier::external_body]
pub struct ExClientConfig(rdkafka::ClientConfig);

/// The parameters that a client configuration holds: what `ClientConfig::get`
/// answers for each key that was set.
pub uninterp spec fn config_entries(config: ClientConfig) -> Map<Seq<char>, Seq<char>>;

/// No parameter at all.
pub open spec fn no_entries() -> Map<Seq<char>, Seq<char>> {
    Map::empty()
}

/// `ClientConfig::new` makes a configuration without parameters.
pub assume_specification[ rdkafka::ClientConfig::new ]() -> (config: rdkafka::ClientConfig)
    ensures
        config_entries(config) == no_entries(),
;

/// `ClientConfig::set`: the key holds the new value, whether or not it held
/// one before, and no other key changes.
#[verifier::external_body]
fn set_entry(config: &mut ClientConfig, key: &str, value: &str)
    ensures
        config_entries(*final(config)) == config_entries(*old(config)).insert(key@, value@),
{
    config.set(key, value);
}

/// The timeout, in seconds, of a request for metadata, watermarks or offsets.
pub const DEFAULT_TIMEOUT_SECS: u64 = 30;

/// The name under which every client of this tool is known to the broker,
/// and with which the group of a transient consumer begins.
pub const CLIENT_NAME: &'static str = "stream-shift-cli";

/// The parameters of an admin client.
pub open spec fn admin_entries(bootstrap_address: Seq<char>) -> Map<Seq<char>, Seq<char>> {
    no_entries().insert("bootstrap.servers"@, bootstrap_address).insert(
        "client.id"@,
        CLIENT_NAME@,
    )
}

/// The configuration of the client that lists topics.
pub fn admin_client_config(bootstrap_address: &str) -> (config: ClientConfig)
    ensures
        config_entries(config) == admin_entries(bootstrap_address@),
{
    let mut config = ClientConfig::new();
    set_entry(&mut config, "bootstrap.servers", bootstrap_address);
    set_entry(&mut config, "client.id", CLIENT_NAME);
    config
}

/// The parameters of a consumer in the group `group_id`: it commits no
/// offsets, and starts at the earliest offset where none is assigned.
pub open spec fn consumer_entries(bootstrap_address: Seq<char>, group_id: Seq<char>) -> Map<
    Seq<char>,
    Seq<char>,
> {
    no_entries().insert("bootstrap.servers"@, bootstrap_address).insert(
        "group.id"@,
        group_id,
    ).insert("enable.auto.commit"@, "false"@).insert("auto.offset.reset"@, "earliest"@)
}

/// The configuration of a consumer in the group `group_id`.
pub fn consumer_config(bootstrap_address: &str, group_id: &str) -> (config: ClientConfig)
    ensures
        config_entries(config) == consumer_entries(bootstrap_address@, group_id@),
{
    let mut config = ClientConfig::new();
    set_entry(&mut config, "bootstrap.servers", bootstrap_address);
    set_entry(&mut config, "group.id", group_id);
    set_entry(&mut config, "enable.auto.commit", "false");
    set_entry(&mut config, "auto.offset.reset", "earliest");
    config
}

/// A digit of lower-case hexadecimal.
pub open spec fn is_lower_hex(c: char) -> bool {
    ('0' <= c && c <= '9') || ('a' <= c && c <= 'f')
}

/// The hyphenated form of a random UUID: 36 characters, hyphens after the
/// 8th, 12th, 16th and 20th digit, lower-case hexadecimal digits elsewhere,
/// and the version digit 4.
pub open spec fn is_random_uuid_text(text: Seq<char>) -> bool {
    &&& text.len() == 36
    &&& forall|i: int|
        0 <= i < 36 ==> if i == 8 || i == 13 || i == 18 || i == 23 {
            #[trigger] text[i] == '-'
        } else {
            is_lower_hex(text[i])
        }
    &&& text[14] == '4'
}

/// `Uuid::new_v4`, as the text that its `Display` gives. Which UUID comes is
/// left to chance; its form is the same every time.
#[verifier::external_body]
fn random_uuid_text() -> (text: String)
    ensures
        is_random_uuid_text(text@),
{
    Uuid::new_v4().to_string()
}

/// The group of a transient consumer that was given the identifier `suffix`.
pub open spec fn group_id_of(suffix: Seq<char>) -> Seq<char> {
    CLIENT_NAME@ + "-"@ + suffix
}

/// Names the group of a transient consumer after the identifier `suffix`.
pub fn group_id_for(suffix: &str) -> (group_id: String)
    ensures
        group_id@ == group_id_of(suffix@),
{
    let mut group_id = String::from_str(CLIENT_NAME);
    group_id.append("-");
    group_id.append(suffix);
    group_id
}

/// The configuration of a consumer that joins a group of its own, named
/// after a fresh random identifier, so that no two reads share a group.
pub fn transient_consumer_config(bootstrap_address: &str) -> (config: ClientConfig)
    ensures
        exists|suffix: Seq<char>|
            is_random_uuid_text(suffix) && config_entries(config) == consumer_entries(
                bootstrap_address@,
                #[trigger] group_id_of(suffix),
            ),
{
    let suffix = random_uuid_text();
    let group_id = group_id_for(suffix.as_str());
    consumer_config(bootstrap_address, group_id.as_str())
}

} // verus!
