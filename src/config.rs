//! The configuration record: names and places of all shared artifacts, and
//! the default capacities of services.

use crate::names::{file_name_error, is_valid_file_name, is_valid_path, FileName, Path, SemanticStringError};
use crate::publisher::UnableToDeliverStrategy;
use vstd::prelude::*;

verus! {

/// A duration in whole seconds and nanoseconds below one second.
#[derive(PartialEq, Eq, Structural, Clone, Copy, Debug)]
pub struct Timeout {
    pub secs: u64,
    pub nanos: u32,
}

pub const NANOS_PER_SEC: u32 = 1_000_000_000;

impl Timeout {
    /// The timeout of `secs` seconds plus `nanos` nanoseconds, normalised.
    pub fn from_secs_and_nanos(secs: u64, nanos: u32) -> (r: Timeout)
        requires
            secs + nanos / NANOS_PER_SEC <= u64::MAX,
        ensures
            r.secs == secs + nanos / NANOS_PER_SEC,
            r.nanos == nanos % NANOS_PER_SEC,
            r.secs * 1_000_000_000 + r.nanos == secs * 1_000_000_000 + nanos,
    {
        let extra = (nanos / NANOS_PER_SEC) as u64;
        Timeout { secs: secs + extra, nanos: nanos % NANOS_PER_SEC }
    }
}

#[derive(Debug, Clone, PartialEq, Eq)]
pub struct NodeConfig {
    pub directory: Path,
    pub monitor_suffix: FileName,
    pub static_config_suffix: FileName,
    pub service_tag_suffix: FileName,
    pub cleanup_dead_nodes_on_creation: bool,
    pub cleanup_dead_nodes_on_destruction: bool,
}

#[derive(Debug, Clone, PartialEq, Eq)]
pub struct ServiceConfig {
    pub directory: Path,
    pub publisher_data_segment_suffix: FileName,
    pub static_config_storage_suffix: FileName,
    pub dynamic_config_storage_suffix: FileName,
    pub creation_timeout: Timeout,
    pub connection_suffix: FileName,
    pub event_connection_suffix: FileName,
}

#[derive(Debug, Clone, PartialEq, Eq)]
pub struct Global {
    pub prefix: FileName,
    pub root_path: Path,
    pub node: NodeConfig,
    pub service: ServiceConfig,
}

#[derive(PartialEq, Eq, Structural, Clone, Copy, Debug)]
pub struct PublishSubscribeDefaults {
    pub max_subscribers: usize,
    pub max_publishers: usize,
    pub max_nodes: usize,
    pub subscriber_max_buffer_size: usize,
    pub subscriber_max_borrowed_samples: usize,
    pub publisher_max_loaned_samples: usize,
    pub publisher_history_size: usize,
    pub enable_safe_overflow: bool,
    pub unable_to_deliver_strategy: UnableToDeliverStrategy,
    pub subscriber_expired_connection_buffer: usize,
}

#[derive(PartialEq, Eq, Structural, Clone, Copy, Debug)]
pub struct EventDefaults {
    pub max_listeners: usize,
    pub max_notifiers: usize,
    pub max_nodes: usize,
    pub event_id_max_value: usize,
}

#[derive(PartialEq, Eq, Structural, Clone, Copy, Debug)]
pub struct RequestResponseDefaults {
    pub enable_safe_overflow_for_requests: bool,
    pub enable_safe_overflow_for_responses: bool,
    pub max_active_requests: usize,
    pub max_borrowed_responses: usize,
    pub max_response_buffer_size: usize,
    pub max_servers: usize,
    pub max_clients: usize,
    pub max_nodes: usize,
}

#[derive(PartialEq, Eq, Structural, Clone, Copy, Debug)]
pub struct Defaults {
    pub publish_subscribe: PublishSubscribeDefaults,
    pub event: EventDefaults,
    pub request_response: RequestResponseDefaults,
}

/// The whole configuration.
#[derive(Debug, Clone, PartialEq, Eq)]
pub struct Config {
    pub global: Global,
    pub defaults: Defaults,
}

/// Why a configuration could not be read from a file.
#[derive(PartialEq, Eq, Structural, Clone, Copy, Debug)]
pub enum ConfigCreationError {
    FailedToOpenConfigFile,
    FailedToReadConfigFileContents,
    UnableToDeserializeContents,
}

/// The code that the C interface reports for success.
pub const IOX2_OK: i32 = 0;

/// The code for a configuration path that is not a valid file path.
pub const INVALID_FILE_PATH: i32 = 4;

impl ConfigCreationError {
    /// The code that the C interface reports for this error.
    pub fn into_c_int(self) -> (r: i32)
        ensures
            r == match self {
                ConfigCreationError::FailedToOpenConfigFile => IOX2_OK + 1,
                ConfigCreationError::FailedToReadConfigFileContents => IOX2_OK + 2,
                ConfigCreationError::UnableToDeserializeContents => IOX2_OK + 3,
            },
            IOX2_OK < r < INVALID_FILE_PATH,
    {
        match self {
            ConfigCreationError::FailedToOpenConfigFile => IOX2_OK + 1,
            ConfigCreationError::FailedToReadConfigFileContents => IOX2_OK + 2,
            ConfigCreationError::UnableToDeserializeContents => IOX2_OK + 3,
        }
    }
}

impl SemanticStringError {
    /// The code that the C interface reports for this error.
    pub fn into_c_int(self) -> (r: i32)
        ensures
            r == match self {
                SemanticStringError::InvalidContent => IOX2_OK + 1,
                SemanticStringError::ExceedsMaximumLength => IOX2_OK + 2,
            },
    {
        match self {
            SemanticStringError::InvalidContent => IOX2_OK + 1,
            SemanticStringError::ExceedsMaximumLength => IOX2_OK + 2,
        }
    }
}

impl UnableToDeliverStrategy {
    /// The code that the C interface reports for this strategy.
    pub fn into_c_int(self) -> (r: i32)
        ensures
            r == match self {
                UnableToDeliverStrategy::Block => 0i32,
                UnableToDeliverStrategy::DiscardSample => 1i32,
            },
    {
        match self {
            UnableToDeliverStrategy::Block => 0,
            UnableToDeliverStrategy::DiscardSample => 1,
        }
    }

    /// The strategy with the given C code; any code but the one for
    /// discarding means blocking.
    pub fn from_c_int(value: i32) -> (r: UnableToDeliverStrategy)
        ensures
            r == (if value == 1 {
                UnableToDeliverStrategy::DiscardSample
            } else {
                UnableToDeliverStrategy::Block
            }),
    {
        if value == 1 {
            UnableToDeliverStrategy::DiscardSample
        } else {
            UnableToDeliverStrategy::Block
        }
    }
}

/// Replaces `field` with `value` if it is a valid file name.
fn set_file_name(field: &mut FileName, value: &[u8]) -> (r: Result<(), SemanticStringError>)
    ensures
        r is Ok <==> is_valid_file_name(value@),
        r is Ok ==> final(field)@ == value@,
        r matches Err(e) ==> e == file_name_error(value@) && *final(field) == *old(field),
{
    match FileName::new(value) {
        Ok(n) => {
            *field = n;
            Ok(())
        },
        Err(e) => Err(e),
    }
}

/// Replaces `field` with `value` if it is a valid path.
fn set_path(field: &mut Path, value: &[u8]) -> (r: Result<(), SemanticStringError>)
    ensures
        r is Ok <==> is_valid_path(value@),
        r is Ok ==> final(field)@ == value@,
        r is Err ==> *final(field) == *old(field),
{
    match Path::new(value) {
        Ok(n) => {
            *field = n;
            Ok(())
        },
        Err(e) => Err(e),
    }
}

impl Default for Config {
    fn default() -> (r: Config)
        ensures
            r.defaults.publish_subscribe.max_nodes == 20,
            r.defaults.event.event_id_max_value == 4294967295,
    {
        Config::default_config()
    }
}

impl Config {
    /// The default configuration.
    pub fn default_config() -> (r: Config)
        ensures
            r.defaults.publish_subscribe.max_subscribers == 8,
            r.defaults.publish_subscribe.max_publishers == 2,
            r.defaults.publish_subscribe.max_nodes == 20,
            r.defaults.publish_subscribe.subscriber_max_buffer_size == 2,
            r.defaults.publish_subscribe.subscriber_max_borrowed_samples == 2,
            r.defaults.publish_subscribe.publisher_max_loaned_samples == 2,
            r.defaults.publish_subscribe.publisher_history_size == 0,
            r.defaults.publish_subscribe.enable_safe_overflow,
            r.defaults.publish_subscribe.unable_to_deliver_strategy == UnableToDeliverStrategy::Block,
            r.defaults.publish_subscribe.subscriber_expired_connection_buffer == 128,
            r.defaults.event.max_listeners == 16,
            r.defaults.event.max_notifiers == 16,
            r.defaults.event.max_nodes == 36,
            r.defaults.event.event_id_max_value == 4294967295,
            r.global.prefix@ == seq![105u8, 111u8, 120u8, 50u8, 95u8],
            r.global.node.cleanup_dead_nodes_on_creation,
            r.global.node.cleanup_dead_nodes_on_destruction,
            r.global.service.creation_timeout == (Timeout { secs: 0, nanos: 500_000_000 }),
    {
        let prefix_bytes: Vec<u8> = vec![105u8, 111u8, 120u8, 50u8, 95u8];
        assert(prefix_bytes@ =~= seq![105u8, 111u8, 120u8, 50u8, 95u8]);
        let prefix = FileName::from_valid_bytes(prefix_bytes);
        let root_path_bytes: Vec<u8> = vec![47u8, 116u8, 109u8, 112u8, 47u8, 105u8, 99u8, 101u8, 111u8, 114u8, 121u8, 120u8, 50u8, 47u8];
        assert(root_path_bytes@ =~= seq![47u8, 116u8, 109u8, 112u8, 47u8, 105u8, 99u8, 101u8, 111u8, 114u8, 121u8, 120u8, 50u8, 47u8]);
        let root_path = Path::from_valid_bytes(root_path_bytes);
        let node_directory_bytes: Vec<u8> = vec![110u8, 111u8, 100u8, 101u8, 115u8];
        assert(node_directory_bytes@ =~= seq![110u8, 111u8, 100u8, 101u8, 115u8]);
        let node_directory = Path::from_valid_bytes(node_directory_bytes);
        let monitor_suffix_bytes: Vec<u8> = vec![46u8, 110u8, 111u8, 100u8, 101u8, 95u8, 109u8, 111u8, 110u8, 105u8, 116u8, 111u8, 114u8];
        assert(monitor_suffix_bytes@ =~= seq![46u8, 110u8, 111u8, 100u8, 101u8, 95u8, 109u8, 111u8, 110u8, 105u8, 116u8, 111u8, 114u8]);
        let monitor_suffix = FileName::from_valid_bytes(monitor_suffix_bytes);
        let node_static_config_suffix_bytes: Vec<u8> = vec![46u8, 100u8, 101u8, 116u8, 97u8, 105u8, 108u8, 115u8];
        assert(node_static_config_suffix_bytes@ =~= seq![46u8, 100u8, 101u8, 116u8, 97u8, 105u8, 108u8, 115u8]);
        let node_static_config_suffix = FileName::from_valid_bytes(node_static_config_suffix_bytes);
        let service_tag_suffix_bytes: Vec<u8> = vec![46u8, 115u8, 101u8, 114u8, 118u8, 105u8, 99u8, 101u8, 95u8, 116u8, 97u8, 103u8];
        assert(service_tag_suffix_bytes@ =~= seq![46u8, 115u8, 101u8, 114u8, 118u8, 105u8, 99u8, 101u8, 95u8, 116u8, 97u8, 103u8]);
        let service_tag_suffix = FileName::from_valid_bytes(service_tag_suffix_bytes);
        let service_directory_bytes: Vec<u8> = vec![115u8, 101u8, 114u8, 118u8, 105u8, 99u8, 101u8, 115u8];
        assert(service_directory_bytes@ =~= seq![115u8, 101u8, 114u8, 118u8, 105u8, 99u8, 101u8, 115u8]);
        let service_directory = Path::from_valid_bytes(service_directory_bytes);
        let publisher_data_segment_suffix_bytes: Vec<u8> = vec![46u8, 112u8, 117u8, 98u8, 108u8, 105u8, 115u8, 104u8, 101u8, 114u8, 95u8, 100u8, 97u8, 116u8, 97u8];
        assert(publisher_data_segment_suffix_bytes@ =~= seq![46u8, 112u8, 117u8, 98u8, 108u8, 105u8, 115u8, 104u8, 101u8, 114u8, 95u8, 100u8, 97u8, 116u8, 97u8]);
        let publisher_data_segment_suffix = FileName::from_valid_bytes(publisher_data_segment_suffix_bytes);
        let static_config_storage_suffix_bytes: Vec<u8> = vec![46u8, 115u8, 101u8, 114u8, 118u8, 105u8, 99u8, 101u8];
        assert(static_config_storage_suffix_bytes@ =~= seq![46u8, 115u8, 101u8, 114u8, 118u8, 105u8, 99u8, 101u8]);
        let static_config_storage_suffix = FileName::from_valid_bytes(static_config_storage_suffix_bytes);
        let dynamic_config_storage_suffix_bytes: Vec<u8> = vec![46u8, 100u8, 121u8, 110u8, 97u8, 109u8, 105u8, 99u8];
        assert(dynamic_config_storage_suffix_bytes@ =~= seq![46u8, 100u8, 121u8, 110u8, 97u8, 109u8, 105u8, 99u8]);
        let dynamic_config_storage_suffix = FileName::from_valid_bytes(dynamic_config_storage_suffix_bytes);
        let connection_suffix_bytes: Vec<u8> = vec![46u8, 99u8, 111u8, 110u8, 110u8, 101u8, 99u8, 116u8, 105u8, 111u8, 110u8];
        assert(connection_suffix_bytes@ =~= seq![46u8, 99u8, 111u8, 110u8, 110u8, 101u8, 99u8, 116u8, 105u8, 111u8, 110u8]);
        let connection_suffix = FileName::from_valid_bytes(connection_suffix_bytes);
        let event_connection_suffix_bytes: Vec<u8> = vec![46u8, 101u8, 118u8, 101u8, 110u8, 116u8];
        assert(event_connection_suffix_bytes@ =~= seq![46u8, 101u8, 118u8, 101u8, 110u8, 116u8]);
        let event_connection_suffix = FileName::from_valid_bytes(event_connection_suffix_bytes);
        let node = NodeConfig {
            directory: node_directory,
            monitor_suffix,
            static_config_suffix: node_static_config_suffix,
            service_tag_suffix,
            cleanup_dead_nodes_on_creation: true,
            cleanup_dead_nodes_on_destruction: true,
        };
        let service = ServiceConfig {
            directory: service_directory,
            publisher_data_segment_suffix,
            static_config_storage_suffix,
            dynamic_config_storage_suffix,
            creation_timeout: Timeout { secs: 0, nanos: 500_000_000 },
            connection_suffix,
            event_connection_suffix,
        };
        let defaults = Defaults {
            publish_subscribe: PublishSubscribeDefaults {
                max_subscribers: 8,
                max_publishers: 2,
                max_nodes: 20,
                subscriber_max_buffer_size: 2,
                subscriber_max_borrowed_samples: 2,
                publisher_max_loaned_samples: 2,
                publisher_history_size: 0,
                enable_safe_overflow: true,
                unable_to_deliver_strategy: UnableToDeliverStrategy::Block,
                subscriber_expired_connection_buffer: 128,
            },
            event: EventDefaults {
                max_listeners: 16,
                max_notifiers: 16,
                max_nodes: 36,
                event_id_max_value: 4294967295,
            },
            request_response: RequestResponseDefaults {
                enable_safe_overflow_for_requests: true,
                enable_safe_overflow_for_responses: true,
                max_active_requests: 4,
                max_borrowed_responses: 4,
                max_response_buffer_size: 2,
                max_servers: 2,
                max_clients: 8,
                max_nodes: 20,
            },
        };
        Config { global: Global { prefix, root_path, node, service }, defaults }
    }

    pub fn set_global_prefix(&mut self, value: &[u8]) -> (r: Result<(), SemanticStringError>)
        ensures
            r is Ok <==> is_valid_file_name(value@),
            r is Ok ==> final(self).global.prefix@ == value@,
            r is Err ==> *final(self) == *old(self),
            *final(self) == (Config { global: Global { prefix: final(self).global.prefix, ..old(self).global }, ..*old(self) }),
    {
        set_file_name(&mut self.global.prefix, value)
    }

    pub fn set_global_root_path(&mut self, value: &[u8]) -> (r: Result<(), SemanticStringError>)
        ensures
            r is Ok <==> is_valid_path(value@),
            r is Ok ==> final(self).global.root_path@ == value@,
            r is Err ==> *final(self) == *old(self),
            *final(self) == (Config { global: Global { root_path: final(self).global.root_path, ..old(self).global }, ..*old(self) }),
    {
        set_path(&mut self.global.root_path, value)
    }

    pub fn set_node_directory(&mut self, value: &[u8]) -> (r: Result<(), SemanticStringError>)
        ensures
            r is Ok <==> is_valid_path(value@),
            r is Ok ==> final(self).global.node.directory@ == value@,
            r is Err ==> *final(self) == *old(self),
            *final(self) == (Config { global: Global { node: NodeConfig { directory: final(self).global.node.directory, ..old(self).global.node }, ..old(self).global }, ..*old(self) }),
    {
        set_path(&mut self.global.node.directory, value)
    }

    pub fn set_node_monitor_suffix(&mut self, value: &[u8]) -> (r: Result<(), SemanticStringError>)
        ensures
            r is Ok <==> is_valid_file_name(value@),
            r is Ok ==> final(self).global.node.monitor_suffix@ == value@,
            r is Err ==> *final(self) == *old(self),
            *final(self) == (Config { global: Global { node: NodeConfig { monitor_suffix: final(self).global.node.monitor_suffix, ..old(self).global.node }, ..old(self).global }, ..*old(self) }),
    {
        set_file_name(&mut self.global.node.monitor_suffix, value)
    }

    pub fn set_node_static_config_suffix(&mut self, value: &[u8]) -> (r: Result<(), SemanticStringError>)
        ensures
            r is Ok <==> is_valid_file_name(value@),
            r is Ok ==> final(self).global.node.static_config_suffix@ == value@,
            r is Err ==> *final(self) == *old(self),
            *final(self) == (Config { global: Global { node: NodeConfig { static_config_suffix: final(self).global.node.static_config_suffix, ..old(self).global.node }, ..old(self).global }, ..*old(self) }),
    {
        set_file_name(&mut self.global.node.static_config_suffix, value)
    }

    pub fn set_node_service_tag_suffix(&mut self, value: &[u8]) -> (r: Result<(), SemanticStringError>)
        ensures
            r is Ok <==> is_valid_file_name(value@),
            r is Ok ==> final(self).global.node.service_tag_suffix@ == value@,
            r is Err ==> *final(self) == *old(self),
            *final(self) == (Config { global: Global { node: NodeConfig { service_tag_suffix: final(self).global.node.service_tag_suffix, ..old(self).global.node }, ..old(self).global }, ..*old(self) }),
    {
        set_file_name(&mut self.global.node.service_tag_suffix, value)
    }

    pub fn set_service_directory(&mut self, value: &[u8]) -> (r: Result<(), SemanticStringError>)
        ensures
            r is Ok <==> is_valid_path(value@),
            r is Ok ==> final(self).global.service.directory@ == value@,
            r is Err ==> *final(self) == *old(self),
            *final(self) == (Config { global: Global { service: ServiceConfig { directory: final(self).global.service.directory, ..old(self).global.service }, ..old(self).global }, ..*old(self) }),
    {
        set_path(&mut self.global.service.directory, value)
    }

    pub fn set_service_publisher_data_segment_suffix(&mut self, value: &[u8]) -> (r: Result<(), SemanticStringError>)
        ensures
            r is Ok <==> is_valid_file_name(value@),
            r is Ok ==> final(self).global.service.publisher_data_segment_suffix@ == value@,
            r is Err ==> *final(self) == *old(self),
            *final(self) == (Config { global: Global { service: ServiceConfig { publisher_data_segment_suffix: final(self).global.service.publisher_data_segment_suffix, ..old(self).global.service }, ..old(self).global }, ..*old(self) }),
    {
        set_file_name(&mut self.global.service.publisher_data_segment_suffix, value)
    }

    pub fn set_service_static_config_storage_suffix(&mut self, value: &[u8]) -> (r: Result<(), SemanticStringError>)
        ensures
            r is Ok <==> is_valid_file_name(value@),
            r is Ok ==> final(self).global.service.static_config_storage_suffix@ == value@,
            r is Err ==> *final(self) == *old(self),
            *final(self) == (Config { global: Global { service: ServiceConfig { static_config_storage_suffix: final(self).global.service.static_config_storage_suffix, ..old(self).global.service }, ..old(self).global }, ..*old(self) }),
    {
        set_file_name(&mut self.global.service.static_config_storage_suffix, value)
    }

    pub fn set_service_dynamic_config_storage_suffix(&mut self, value: &[u8]) -> (r: Result<(), SemanticStringError>)
        ensures
            r is Ok <==> is_valid_file_name(value@),
            r is Ok ==> final(self).global.service.dynamic_config_storage_suffix@ == value@,
            r is Err ==> *final(self) == *old(self),
            *final(self) == (Config { global: Global { service: ServiceConfig { dynamic_config_storage_suffix: final(self).global.service.dynamic_config_storage_suffix, ..old(self).global.service }, ..old(self).global }, ..*old(self) }),
    {
        set_file_name(&mut self.global.service.dynamic_config_storage_suffix, value)
    }

    pub fn set_service_connection_suffix(&mut self, value: &[u8]) -> (r: Result<(), SemanticStringError>)
        ensures
            r is Ok <==> is_valid_file_name(value@),
            r is Ok ==> final(self).global.service.connection_suffix@ == value@,
            r is Err ==> *final(self) == *old(self),
            *final(self) == (Config { global: Global { service: ServiceConfig { connection_suffix: final(self).global.service.connection_suffix, ..old(self).global.service }, ..old(self).global }, ..*old(self) }),
    {
        set_file_name(&mut self.global.service.connection_suffix, value)
    }

    pub fn set_service_event_connection_suffix(&mut self, value: &[u8]) -> (r: Result<(), SemanticStringError>)
        ensures
            r is Ok <==> is_valid_file_name(value@),
            r is Ok ==> final(self).global.service.event_connection_suffix@ == value@,
            r is Err ==> *final(self) == *old(self),
            *final(self) == (Config { global: Global { service: ServiceConfig { event_connection_suffix: final(self).global.service.event_connection_suffix, ..old(self).global.service }, ..old(self).global }, ..*old(self) }),
    {
        set_file_name(&mut self.global.service.event_connection_suffix, value)
    }

    /// Sets the creation timeout to `secs` seconds plus `nanos` nanoseconds.
    pub fn set_service_creation_timeout(&mut self, secs: u64, nanos: u32) -> (r: bool)
        ensures
            r == (secs + nanos / NANOS_PER_SEC <= u64::MAX),
            r ==> final(self).global.service.creation_timeout == (Timeout {
                secs: (secs + nanos / NANOS_PER_SEC) as u64,
                nanos: (nanos % NANOS_PER_SEC) as u32,
            }),
            *final(self) == (Config { global: Global { service: ServiceConfig { creation_timeout: final(self).global.service.creation_timeout, ..old(self).global.service }, ..old(self).global }, ..*old(self) }),
            !r ==> *final(self) == *old(self),
    {
        if secs > u64::MAX - (nanos / NANOS_PER_SEC) as u64 {
            return false;
        }
        self.global.service.creation_timeout = Timeout::from_secs_and_nanos(secs, nanos);
        true
    }
}

} // verus!
