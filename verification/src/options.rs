//! The settings of a client.

use vstd::prelude::*;

use crate::time::Duration;
use crate::QoS;

verus! {

/// [`LastWill`] describes a message to be published if the client disconnects unexpectedly,
/// e.g. if the socket gets closed before a `DISCONNECT` packet could be sent by the client.
pub struct LastWill<'a> {
    /// The topic to publish in
    pub topic: &'a str,
    /// The message (aka payload) to publish
    pub message: &'a [u8],
    /// Whether the last will message should be retained
    pub retain: bool,
    /// The quality of service of the last will message
    pub qos: QoS,
}

/// A version of the Internet Protocol.
#[derive(Debug, Clone, Copy, PartialEq, Eq, Structural)]
pub enum IpVersion {
    V4,
    V6,
}

/// A set used to represent what versions of the Internet Protocol (IP) to enable.
///
/// The set is initially constructed with all versions enabled by default (IPv4 and IPV6)
/// using [`IpVersionSet::all()`].
#[derive(Debug, Clone, Copy, PartialEq, Eq, Structural)]
pub struct IpVersionSet {
    v4: bool,
    v6: bool,
}

impl IpVersionSet {
    /// Whether a version is in this set.
    pub closed spec fn contains(self, version: IpVersion) -> bool {
        match version {
            IpVersion::V4 => self.v4,
            IpVersion::V6 => self.v6,
        }
    }

    /// Constructs an [`IpVersionSet`] with both IPv4 and IPv6 enabled.
    pub fn all() -> (r: Self)
        ensures
            forall|v: IpVersion| #[trigger] r.contains(v),
            r == Self::spec_all(),
    {
        IpVersionSet { v4: true, v6: true }
    }

    /// The set with both IPv4 and IPv6 enabled.
    pub closed spec fn spec_all() -> Self {
        IpVersionSet { v4: true, v6: true }
    }

    /// This set without a version.
    pub closed spec fn without(self, version: IpVersion) -> Self {
        match version {
            IpVersion::V4 => IpVersionSet { v4: false, ..self },
            IpVersion::V6 => IpVersionSet { v6: false, ..self },
        }
    }

    /// Creates a copy of this set that excludes IPv4.
    pub fn without_v4(self) -> (r: Self)
        ensures
            r == self.without(IpVersion::V4),
            !r.contains(IpVersion::V4),
            r.contains(IpVersion::V6) == self.contains(IpVersion::V6),
    {
        IpVersionSet { v4: false, ..self }
    }

    /// Creates a copy of this set that excludes IPv6.
    pub fn without_v6(self) -> (r: Self)
        ensures
            r == self.without(IpVersion::V6),
            !r.contains(IpVersion::V6),
            r.contains(IpVersion::V4) == self.contains(IpVersion::V4),
    {
        IpVersionSet { v6: false, ..self }
    }

    /// Checks whether the IP version of an address is contained in this set.
    pub fn supports(self, version: IpVersion) -> (r: bool)
        ensures
            r == self.contains(version),
    {
        match version {
            IpVersion::V4 => self.v4,
            IpVersion::V6 => self.v6,
        }
    }
}

/// Excluding a version from a set excludes that version and nothing else, whatever else was
/// excluded before; a set is what it contains.
pub proof fn law_ip_versions(set: IpVersionSet, removed: IpVersion, v: IpVersion)
    ensures
        IpVersionSet::spec_all().contains(v),
        set.without(removed).contains(v) <==> set.contains(v) && v != removed,
        forall|other: IpVersionSet| #[trigger]
            other.contains(IpVersion::V4) == set.contains(IpVersion::V4) && other.contains(
                IpVersion::V6,
            ) == set.contains(IpVersion::V6) ==> other == set,
{
}

/// A struct containing all the MQTT protocol & implementation settings. To create this
/// structure with its default values, use [`Options::new`].
pub struct OptionsT<'a, T> {
    /// Whether to establish a persistent session or not. If this is set to `true`,
    /// then the broker will drop any pre-existing session information associated
    /// with the specified [`Self::client_id`]. This means that when subscribing to
    /// topics, any retained messages will be (re-)transmitted to this client. In
    /// addition, the broker will not store any information about this session.
    ///
    /// Default is `false`.
    pub clean_session: bool,
    /// Time interval (in seconds) between any packet and a `PING` requests.
    ///
    /// Default is 30 seconds.
    pub keep_alive: u16,
    /// A string identifying this client. The broker may choose to use soemthing
    /// different.
    ///
    /// It is also used by the broker to establish a persistent session (should
    /// [`Self::clean_session`] be `false`).
    pub client_id: &'a str,
    /// The [`LastWill`] is used to publish a message if the client connection ends
    /// in an unexpected manner. This is optional.
    ///
    /// Default is `None`.
    pub last_will: Option<LastWill<'a>>,
    /// An optional username used to authenticate the client to the broker.
    ///
    /// Default is `None`.
    pub username: Option<&'a str>,
    /// An optional password used to authenticate the client to the broker.
    ///
    /// Default is `None`.
    pub password: Option<&'a [u8]>,
    /// Sets the "no delay" flag to the TCP connection.
    ///
    /// Default is `false`.
    pub no_delay: bool,
    /// A set specifying which Internet Protocol versions to use (IPv4 and/or
    /// IPv6) to establish the TCP connection.
    ///
    /// By default, both IP versions are enabled.
    pub enabled_ip_versions: IpVersionSet,
    /// The TLS configuration used to establish the connection. By default,
    /// this field is empty. Enabling TLS can be done by using one of the dedicated
    /// functions of [`OptionsT`], such as [`OptionsT::enable_tls()`].
    pub connection_cfg: T,
    /// The maximum amount of time that can be spent looking up the broker's
    /// hostname.
    ///
    /// By default, this is set to 3 seconds.
    pub dns_timeout: Duration,
    /// The maximum amount of time that can be spent establishing the TCP
    /// connection.
    ///
    /// By default, this is set to 10 seconds.
    pub tcp_connect_timeout: Duration,
    /// The maximum amount of time waiting for the broker's `CONNACK` packet.
    ///
    /// By default, this is set to 3 seconds.
    pub mqtt_connect_timeout: Duration,
    /// How long the client should wait before re-sending a packet if no
    /// acknowledment packet is received. This delay has a low precision.
    ///
    /// Default (and minimum) is 1 second.
    pub packets_resend_delay: Duration,
    /// Default port to use if none is specified in the hostname string.
    /// Use [`OptionsT::set_default_port()`] to change it and
    /// [`OptionsT::default_port()`] to access it.
    ///
    /// Default is 1883 when TLS is **not** used and 8883 when TLS is **in use**.
    pub default_port: u16,
    /// True if [`Self::default_port`] has been changed through a call to
    /// [`OptionsT::set_default_port()`]. This is used to switch the default
    /// port to 8883 when enabling TLS, if the developer didn't change it
    /// beforehand.
    pub default_port_changed: bool,
}

/// A flavour of [`OptionsT`] with TLS disabled.
pub type Options<'a> = OptionsT<'a, ()>;

impl<'a> OptionsT<'a, ()> {
    /// Creates new options with the default values and TLS disabled. TLS
    /// can be enabled later on using one of the functions of [`OptionsT`]
    /// such as [`OptionsT::enable_tls()`].
    pub fn new(client_id: &'a str) -> (r: Self)
        ensures
            r == (OptionsT {
                clean_session: false,
                keep_alive: 30,
                client_id,
                last_will: None,
                username: None,
                password: None,
                no_delay: false,
                enabled_ip_versions: IpVersionSet::spec_all(),
                connection_cfg: (),
                dns_timeout: Duration::spec_from_secs(3),
                tcp_connect_timeout: Duration::spec_from_secs(10),
                mqtt_connect_timeout: Duration::spec_from_secs(3),
                packets_resend_delay: Duration::spec_from_secs(1),
                default_port: 1883,
                default_port_changed: false,
            }),
    {
        OptionsT {
            clean_session: false,
            keep_alive: 30,
            client_id,
            last_will: None,
            username: None,
            password: None,
            no_delay: false,
            enabled_ip_versions: IpVersionSet::all(),
            connection_cfg: (),
            dns_timeout: Duration::from_secs(3),
            tcp_connect_timeout: Duration::from_secs(10),
            mqtt_connect_timeout: Duration::from_secs(3),
            packets_resend_delay: Duration::from_secs(1),
            default_port: 1883,
            default_port_changed: false,
        }
    }
}

impl<'a, T> OptionsT<'a, T> {
    /// These options with another [`Self::connection_cfg`].
    pub open spec fn with_connection_cfg<O>(self, connection_cfg: O) -> OptionsT<'a, O> {
        OptionsT {
            clean_session: self.clean_session,
            keep_alive: self.keep_alive,
            client_id: self.client_id,
            last_will: self.last_will,
            username: self.username,
            password: self.password,
            no_delay: self.no_delay,
            enabled_ip_versions: self.enabled_ip_versions,
            connection_cfg,
            dns_timeout: self.dns_timeout,
            tcp_connect_timeout: self.tcp_connect_timeout,
            mqtt_connect_timeout: self.mqtt_connect_timeout,
            packets_resend_delay: self.packets_resend_delay,
            default_port: self.default_port,
            default_port_changed: self.default_port_changed,
        }
    }

    /// Changes the type of the [`Self::connection_cfg`] field.
    pub(crate) fn map_connection_cfg<O, F: FnOnce(T) -> O>(self, f: F) -> (r: OptionsT<'a, O>)
        requires
            call_requires(f, (self.connection_cfg,)),
        ensures
            call_ensures(f, (self.connection_cfg,), r.connection_cfg),
            r == self.with_connection_cfg(r.connection_cfg),
    {
        OptionsT {
            clean_session: self.clean_session,
            keep_alive: self.keep_alive,
            client_id: self.client_id,
            last_will: self.last_will,
            username: self.username,
            password: self.password,
            no_delay: self.no_delay,
            enabled_ip_versions: self.enabled_ip_versions,
            connection_cfg: f(self.connection_cfg),
            dns_timeout: self.dns_timeout,
            tcp_connect_timeout: self.tcp_connect_timeout,
            mqtt_connect_timeout: self.mqtt_connect_timeout,
            packets_resend_delay: self.packets_resend_delay,
            default_port: self.default_port,
            default_port_changed: self.default_port_changed,
        }
    }

    /// Takes the [`Self::connection_cfg`] out of these options.
    pub fn separate_connection_cfg(self) -> (r: (OptionsT<'a, ()>, T))
        ensures
            r.0 == self.with_connection_cfg(()),
            r.1 == self.connection_cfg,
    {
        (
            OptionsT {
                clean_session: self.clean_session,
                keep_alive: self.keep_alive,
                client_id: self.client_id,
                last_will: self.last_will,
                username: self.username,
                password: self.password,
                no_delay: self.no_delay,
                enabled_ip_versions: self.enabled_ip_versions,
                connection_cfg: (),
                dns_timeout: self.dns_timeout,
                tcp_connect_timeout: self.tcp_connect_timeout,
                mqtt_connect_timeout: self.mqtt_connect_timeout,
                packets_resend_delay: self.packets_resend_delay,
                default_port: self.default_port,
                default_port_changed: self.default_port_changed,
            },
            self.connection_cfg,
        )
    }

    /// Sets the [`Self::clean_session`] flag to `true`. See the corresponding
    /// field's documentation for more information.
    pub fn set_clean_session(&mut self) -> (r: &mut Self)
        ensures
            *r == (OptionsT { clean_session: true, ..*old(self) }),
            *final(self) == *final(r),
    {
        self.clean_session = true;
        self
    }

    /// Changes [`Self::keep_alive`] to the specified value, in seconds. See
    /// the corresponding field's documentation for more information.
    pub fn set_keep_alive(&mut self, keep_alive: u16) -> (r: &mut Self)
        ensures
            *r == (OptionsT { keep_alive, ..*old(self) }),
            *final(self) == *final(r),
    {
        self.keep_alive = keep_alive;
        self
    }

    /// Enables MQTT's last will functionality with the specified settings.
    /// See [`Self::last_will`] for more information.
    pub fn set_last_will_ex(&mut self, last_will: LastWill<'a>) -> (r: &mut Self)
        ensures
            *r == (OptionsT { last_will: Some(last_will), ..*old(self) }),
            *final(self) == *final(r),
    {
        self.last_will = Some(last_will);
        self
    }

    /// Enables MQTT's last will functionality with the specified settings.
    /// See [`Self::last_will`] for more information.
    pub fn set_last_will(
        &mut self,
        topic: &'a str,
        message: &'a [u8],
        retain: bool,
        qos: QoS,
    ) -> (r: &mut Self)
        ensures
            *r == (OptionsT {
                last_will: Some(LastWill { topic, message, retain, qos }),
                ..*old(self)
            }),
            *final(self) == *final(r),
    {
        self.set_last_will_ex(LastWill { topic, message, retain, qos })
    }

    /// Changes [`Self::username`] to the specified value. See the
    /// corresponding field's documentation for more information.
    pub fn set_username(&mut self, username: &'a str) -> (r: &mut Self)
        ensures
            *r == (OptionsT { username: Some(username), ..*old(self) }),
            *final(self) == *final(r),
    {
        self.username = Some(username);
        self
    }

    /// Changes [`Self::password`] to the specified value. See the
    /// corresponding field's documentation for more information.
    pub fn set_password(&mut self, password: &'a [u8]) -> (r: &mut Self)
        ensures
            *r == (OptionsT { password: Some(password), ..*old(self) }),
            *final(self) == *final(r),
    {
        self.password = Some(password);
        self
    }

    /// Sets [`Self::no_delay`] to `true`. See the corresponding field's
    /// documentation for more information.
    pub fn set_no_delay(&mut self) -> (r: &mut Self)
        ensures
            *r == (OptionsT { no_delay: true, ..*old(self) }),
            *final(self) == *final(r),
    {
        self.no_delay = true;
        self
    }

    /// Removes IPv4 from the [`Self::enabled_ip_versions`] set. See the
    /// corresponding field's documentation for more information.
    pub fn disable_ipv4(&mut self) -> (r: &mut Self)
        ensures
            *r == (OptionsT { enabled_ip_versions: old(self).enabled_ip_versions.without(IpVersion::V4), ..*old(self) }),
            *final(self) == *final(r),
    {
        self.enabled_ip_versions = self.enabled_ip_versions.without_v4();
        self
    }

    /// Removes IPv6 from the [`Self::enabled_ip_versions`] set. See the
    /// corresponding field's documentation for more information.
    pub fn disable_ipv6(&mut self) -> (r: &mut Self)
        ensures
            *r == (OptionsT { enabled_ip_versions: old(self).enabled_ip_versions.without(IpVersion::V6), ..*old(self) }),
            *final(self) == *final(r),
    {
        self.enabled_ip_versions = self.enabled_ip_versions.without_v6();
        self
    }

    /// Changes [`Self::dns_timeout`] to the specified value. See the
    /// corresponding field's documentation for more information.
    pub fn set_dns_timeout(&mut self, to: Duration) -> (r: &mut Self)
        ensures
            *r == (OptionsT { dns_timeout: to, ..*old(self) }),
            *final(self) == *final(r),
    {
        self.dns_timeout = to;
        self
    }

    /// Changes [`Self::tcp_connect_timeout`] to the specified value. See the
    /// corresponding field's documentation for more information.
    pub fn set_tcp_connect_timeout(&mut self, to: Duration) -> (r: &mut Self)
        ensures
            *r == (OptionsT { tcp_connect_timeout: to, ..*old(self) }),
            *final(self) == *final(r),
    {
        self.tcp_connect_timeout = to;
        self
    }

    /// Changes [`Self::mqtt_connect_timeout`] to the specified value. See the
    /// corresponding field's documentation for more information.
    pub fn set_mqtt_connect_timeout(&mut self, to: Duration) -> (r: &mut Self)
        ensures
            *r == (OptionsT { mqtt_connect_timeout: to, ..*old(self) }),
            *final(self) == *final(r),
    {
        self.mqtt_connect_timeout = to;
        self
    }

    /// Changes [`Self::dns_timeout`], [`Self::tcp_connect_timeout`], and
    /// [`Self::mqtt_connect_timeout`] to the specified values. See their
    /// respective documentation for more information.
    pub fn set_all_timeouts(&mut self, dns: Duration, tcp_connect: Duration, mqtt_connect: Duration) -> (r: &mut Self)
        ensures
            *r == (OptionsT { dns_timeout: dns, tcp_connect_timeout: tcp_connect, mqtt_connect_timeout: mqtt_connect, ..*old(self) }),
            *final(self) == *final(r),
    {
        self.dns_timeout = dns;
        self.tcp_connect_timeout = tcp_connect;
        self.mqtt_connect_timeout = mqtt_connect;
        self
    }

    /// Sets [`Self::dns_timeout`], [`Self::tcp_connect_timeout`], and
    /// [`Self::mqtt_connect_timeout`] to the same specified value. See their
    /// respective documentation for more information.
    pub fn set_all_timeouts_to(&mut self, to: Duration) -> (r: &mut Self)
        ensures
            *r == (OptionsT { dns_timeout: to, tcp_connect_timeout: to, mqtt_connect_timeout: to, ..*old(self) }),
            *final(self) == *final(r),
    {
        self.dns_timeout = to;
        self.tcp_connect_timeout = to;
        self.mqtt_connect_timeout = to;
        self
    }

    /// Changes [`Self::packets_resend_delay`] to the specified value. See
    /// the corresponding field's documentation for more information.
    pub fn set_packets_resend_delay(&mut self, delay: Duration) -> (r: &mut Self)
        ensures
            *r == (OptionsT { packets_resend_delay: delay, ..*old(self) }),
            *final(self) == *final(r),
    {
        self.packets_resend_delay = delay;
        self
    }

    /// Changes the default port (the port used if no port is explicitly
    /// specified in the host that is connected to) to the specified value.
    ///
    /// Default is 1883 when TLS is **not** used and 8883 when TLS is **in use**.
    pub fn set_default_port(&mut self, port: u16) -> (r: &mut Self)
        ensures
            *r == (OptionsT { default_port: port, default_port_changed: true, ..*old(self) }),
            *final(self) == *final(r),
    {
        self.default_port = port;
        self.default_port_changed = true;
        self
    }

    /// Accesses the default port (the port used if no port is explicitly
    /// specified in the host that is connected to).
    ///
    /// Default is 1883 when TLS is **not** used and 8883 when TLS is **in use**.
    pub fn default_port(&self) -> (r: u16)
        ensures
            r == self.default_port,
    {
        self.default_port
    }
}

/// Options with another connection configuration are otherwise the same, setting by setting.
pub proof fn law_other_settings_stay<T, O>(options: OptionsT<'_, T>, cfg: O)
    ensures
        ({
            let o = options.with_connection_cfg(cfg);
            &&& o.connection_cfg == cfg
            &&& o.clean_session == options.clean_session
            &&& o.keep_alive == options.keep_alive
            &&& o.client_id == options.client_id
            &&& o.last_will == options.last_will
            &&& o.username == options.username
            &&& o.password == options.password
            &&& o.no_delay == options.no_delay
            &&& o.enabled_ip_versions == options.enabled_ip_versions
            &&& o.dns_timeout == options.dns_timeout
            &&& o.tcp_connect_timeout == options.tcp_connect_timeout
            &&& o.mqtt_connect_timeout == options.mqtt_connect_timeout
            &&& o.packets_resend_delay == options.packets_resend_delay
            &&& o.default_port == options.default_port
            &&& o.default_port_changed == options.default_port_changed
        }),
{
}

} // verus!
