//! Connection options, built up through handles before `mysql_connect`.
use vstd::prelude::*;

use crate::idmap::{advance_handle, next_handle, IdMap};

verus! {

#[derive(Debug, Clone)]
pub struct MysqlOptions {
    pub port: u16,
    pub ssl: bool,
    pub ssl_ca: Option<String>,
    /// Client certificate chain for mutual TLS. Requires `ssl_key`.
    pub ssl_cert: Option<String>,
    /// Client private key for mutual TLS. Requires `ssl_cert`.
    pub ssl_key: Option<String>,
    /// When false, the server certificate is accepted even if expired or
    /// untrusted.
    pub ssl_verify_cert: bool,
    pub connect_timeout: Option<u32>,
    pub auto_reconnect: bool,
    /// Most connections the pool may open; the driver's default when absent.
    pub pool_size: Option<u32>,
}

/// The defaults: port 3306, plaintext, certificate verification on, no
/// timeout, auto-reconnect on, the driver's pool size.
pub open spec fn is_default_options(o: MysqlOptions) -> bool {
    &&& o.port == 3306
    &&& !o.ssl
    &&& o.ssl_ca is None
    &&& o.ssl_cert is None
    &&& o.ssl_key is None
    &&& o.ssl_verify_cert
    &&& o.connect_timeout is None
    &&& o.auto_reconnect
    &&& o.pool_size is None
}

impl Default for MysqlOptions {
    fn default() -> (o: Self)
        ensures
            is_default_options(o),
    {
        MysqlOptions {
            port: 3306,
            ssl: false,
            ssl_ca: None,
            ssl_cert: None,
            ssl_key: None,
            ssl_verify_cert: true,
            connect_timeout: None,
            auto_reconnect: true,
            pool_size: None,
        }
    }
}

/// `a` and `b` hold the same settings.
pub open spec fn same_options(a: MysqlOptions, b: MysqlOptions) -> bool {
    &&& a.port == b.port
    &&& a.ssl == b.ssl
    &&& same_text(a.ssl_ca, b.ssl_ca)
    &&& same_text(a.ssl_cert, b.ssl_cert)
    &&& same_text(a.ssl_key, b.ssl_key)
    &&& a.ssl_verify_cert == b.ssl_verify_cert
    &&& a.connect_timeout == b.connect_timeout
    &&& a.auto_reconnect == b.auto_reconnect
    &&& a.pool_size == b.pool_size
}

/// Both absent, or both present with the same text.
pub open spec fn same_text(a: Option<String>, b: Option<String>) -> bool {
    match (a, b) {
        (None, None) => true,
        (Some(x), Some(y)) => x@ == y@,
        _ => false,
    }
}

fn copy_text(s: &Option<String>) -> (r: Option<String>)
    ensures
        same_text(*s, r),
{
    match s {
        Some(v) => Some(String::from_str(v.as_str())),
        None => None,
    }
}

impl MysqlOptions {
    /// An independent copy of the settings.
    pub fn duplicate(&self) -> (o: Self)
        ensures
            same_options(*self, o),
    {
        MysqlOptions {
            port: self.port,
            ssl: self.ssl,
            ssl_ca: copy_text(&self.ssl_ca),
            ssl_cert: copy_text(&self.ssl_cert),
            ssl_key: copy_text(&self.ssl_key),
            ssl_verify_cert: self.ssl_verify_cert,
            connect_timeout: self.connect_timeout,
            auto_reconnect: self.auto_reconnect,
            pool_size: self.pool_size,
        }
    }
}

/// The option a `mysql_options_set_*` native addresses; the numbering is the
/// Pawn enum, `0` to `7` in declaration order. The option documentation lists
/// `MYSQL_OPT_POOL_SIZE` without giving its number, and the option tests
/// require `8` to name no option, so `PoolSize` takes `9`: a script include
/// that declares the constant must declare it as `9`.
#[derive(Debug, Clone, Copy, PartialEq, Eq, Structural)]
pub enum MysqlOptionKind {
    Port,
    Ssl,
    SslCa,
    ConnectTimeout,
    AutoReconnect,
    SslCert,
    SslKey,
    SslVerifyCert,
    PoolSize,
}

pub open spec fn option_kind_of(v: i32) -> Option<MysqlOptionKind> {
    if v == 0 {
        Some(MysqlOptionKind::Port)
    } else if v == 1 {
        Some(MysqlOptionKind::Ssl)
    } else if v == 2 {
        Some(MysqlOptionKind::SslCa)
    } else if v == 3 {
        Some(MysqlOptionKind::ConnectTimeout)
    } else if v == 4 {
        Some(MysqlOptionKind::AutoReconnect)
    } else if v == 5 {
        Some(MysqlOptionKind::SslCert)
    } else if v == 6 {
        Some(MysqlOptionKind::SslKey)
    } else if v == 7 {
        Some(MysqlOptionKind::SslVerifyCert)
    } else if v == 9 {
        Some(MysqlOptionKind::PoolSize)
    } else {
        None
    }
}

impl MysqlOptionKind {
    pub fn from_i32(v: i32) -> (r: Option<Self>)
        ensures
            r == option_kind_of(v),
    {
        match v {
            0 => Some(MysqlOptionKind::Port),
            1 => Some(MysqlOptionKind::Ssl),
            2 => Some(MysqlOptionKind::SslCa),
            3 => Some(MysqlOptionKind::ConnectTimeout),
            4 => Some(MysqlOptionKind::AutoReconnect),
            5 => Some(MysqlOptionKind::SslCert),
            6 => Some(MysqlOptionKind::SslKey),
            7 => Some(MysqlOptionKind::SslVerifyCert),
            9 => Some(MysqlOptionKind::PoolSize),
            _ => None,
        }
    }
}

/// The options after `set_int(option, value)`, or `None` when the option
/// does not take an integer or the value is out of its range.
pub open spec fn set_int_spec(o: MysqlOptions, option: MysqlOptionKind, value: i32) -> Option<MysqlOptions> {
    match option {
        MysqlOptionKind::Port => if 0 <= value <= u16::MAX {
            Some(MysqlOptions { port: value as u16, ..o })
        } else {
            None
        },
        MysqlOptionKind::Ssl => Some(MysqlOptions { ssl: value != 0, ..o }),
        MysqlOptionKind::ConnectTimeout => if 0 <= value {
            Some(MysqlOptions { connect_timeout: Some(value as u32), ..o })
        } else {
            None
        },
        MysqlOptionKind::AutoReconnect => Some(MysqlOptions { auto_reconnect: value != 0, ..o }),
        MysqlOptionKind::SslVerifyCert => Some(MysqlOptions { ssl_verify_cert: value != 0, ..o }),
        MysqlOptionKind::PoolSize => if value >= 1 {
            Some(MysqlOptions { pool_size: Some(value as u32), ..o })
        } else {
            None
        },
        _ => None,
    }
}

/// The options after `set_str(option, value)`, or `None` when the option
/// does not take a string.
pub open spec fn set_str_spec(o: MysqlOptions, option: MysqlOptionKind, value: String) -> Option<MysqlOptions> {
    match option {
        MysqlOptionKind::SslCa => Some(MysqlOptions { ssl_ca: Some(value), ..o }),
        MysqlOptionKind::SslCert => Some(MysqlOptions { ssl_cert: Some(value), ..o }),
        MysqlOptionKind::SslKey => Some(MysqlOptions { ssl_key: Some(value), ..o }),
        _ => None,
    }
}

/// Option sets addressed by handle.
pub struct OptionsManager {
    options: IdMap<MysqlOptions>,
    /// The handle the next `create` hands out.
    pub next_id: i32,
}

impl OptionsManager {
    pub closed spec fn options(&self) -> Map<i32, MysqlOptions> {
        self.options@
    }

    /// The handle the next `create` hands out.
    pub closed spec fn next(&self) -> i32 {
        self.next_id
    }

    /// Handles are positive.
    pub closed spec fn wf(&self) -> bool {
        self.options.wf() && self.next_id >= 1
    }

    pub fn new() -> (m: Self)
        ensures
            m.wf(),
            m.options() == Map::<i32, MysqlOptions>::empty(),
            m.next() == 1,
    {
        OptionsManager { options: IdMap::new(), next_id: 1 }
    }

    /// A new handle holding the default options.
    pub fn create(&mut self) -> (id: i32)
        requires
            old(self).wf(),
        ensures
            final(self).wf(),
            id == old(self).next(),
            id >= 1,
            final(self).next() == next_handle(old(self).next()),
            final(self).options().contains_key(id),
            is_default_options(final(self).options()[id]),
            forall|k: i32| k != id ==> (#[trigger] final(self).options().contains_key(k)
                == old(self).options().contains_key(k) && (final(self).options().contains_key(k)
                ==> final(self).options()[k] == old(self).options()[k])),
    {
        let id = self.next_id;
        self.next_id = advance_handle(self.next_id);
        self.options.insert(id, MysqlOptions::default());
        id
    }

    pub fn get(&self, id: i32) -> (r: Option<&MysqlOptions>)
        requires
            self.wf(),
        ensures
            match r {
                Some(o) => self.options().contains_key(id) && *o == self.options()[id],
                None => !self.options().contains_key(id),
            },
    {
        self.options.get(id)
    }

    /// Sets an integer option. Unknown handles, string options and values
    /// outside the option's range are refused and change nothing.
    pub fn set_int(&mut self, id: i32, option: MysqlOptionKind, value: i32) -> (ok: bool)
        requires
            old(self).wf(),
        ensures
            final(self).wf(),
            final(self).next() == old(self).next(),
            ok == (old(self).options().contains_key(id) && set_int_spec(
                old(self).options()[id],
                option,
                value,
            ) is Some),
            ok ==> final(self).options() == old(self).options().insert(
                id,
                set_int_spec(old(self).options()[id], option, value)->0,
            ),
            !ok ==> final(self).options() == old(self).options(),
    {
        let Some(opts) = self.options.get_mut(id) else {
            return false;
        };
        match option {
            MysqlOptionKind::Port => {
                if value < 0 || value > 65535 {
                    return false;
                }
                opts.port = value as u16;
            },
            MysqlOptionKind::Ssl => opts.ssl = value != 0,
            MysqlOptionKind::ConnectTimeout => {
                if value < 0 {
                    return false;
                }
                opts.connect_timeout = Some(value as u32);
            },
            MysqlOptionKind::AutoReconnect => opts.auto_reconnect = value != 0,
            MysqlOptionKind::SslVerifyCert => opts.ssl_verify_cert = value != 0,
            MysqlOptionKind::PoolSize => {
                if value < 1 {
                    return false;
                }
                opts.pool_size = Some(value as u32);
            },
            _ => return false,
        }
        true
    }

    /// Sets a string option. Unknown handles and integer options are refused
    /// and change nothing.
    pub fn set_str(&mut self, id: i32, option: MysqlOptionKind, value: String) -> (ok: bool)
        requires
            old(self).wf(),
        ensures
            final(self).wf(),
            final(self).next() == old(self).next(),
            ok == (old(self).options().contains_key(id) && set_str_spec(
                old(self).options()[id],
                option,
                value,
            ) is Some),
            ok ==> final(self).options() == old(self).options().insert(
                id,
                set_str_spec(old(self).options()[id], option, value)->0,
            ),
            !ok ==> final(self).options() == old(self).options(),
    {
        let Some(opts) = self.options.get_mut(id) else {
            return false;
        };
        match option {
            MysqlOptionKind::SslCa => opts.ssl_ca = Some(value),
            MysqlOptionKind::SslCert => opts.ssl_cert = Some(value),
            MysqlOptionKind::SslKey => opts.ssl_key = Some(value),
            _ => return false,
        }
        true
    }
}

/// Setting an option through one handle leaves every other handle as it was,
/// and a refused setter leaves even its own handle as it was.
pub proof fn lemma_set_int_is_local(
    before: Map<i32, MysqlOptions>,
    id: i32,
    option: MysqlOptionKind,
    value: i32,
    other: i32,
)
    requires
        before.contains_key(id),
        other != id,
    ensures
        ({
            let after = match set_int_spec(before[id], option, value) {
                Some(o) => before.insert(id, o),
                None => before,
            };
            &&& after.contains_key(other) == before.contains_key(other)
            &&& before.contains_key(other) ==> after[other] == before[other]
        }),
{
}


/// `a` and `b` agree on everything but, perhaps, the fields named.
pub open spec fn same_except(a: MysqlOptions, b: MysqlOptions, port: bool, ssl: bool, verify: bool, timeout: bool, reconnect: bool, pool: bool) -> bool {
    &&& (port || a.port == b.port)
    &&& (ssl || a.ssl == b.ssl)
    &&& a.ssl_ca == b.ssl_ca
    &&& a.ssl_cert == b.ssl_cert
    &&& a.ssl_key == b.ssl_key
    &&& (verify || a.ssl_verify_cert == b.ssl_verify_cert)
    &&& (timeout || a.connect_timeout == b.connect_timeout)
    &&& (reconnect || a.auto_reconnect == b.auto_reconnect)
    &&& (pool || a.pool_size == b.pool_size)
}

/// What `mysql_options_set_int` does to an option set: a switch (`SSL`,
/// `SSL_VERIFY_CERT`, `AUTO_RECONNECT`) takes any value and is on exactly
/// when the value is not 0; the port takes `0..=65535`, the timeout any
/// value from 0 on and the pool size any value from 1 on, each then holding
/// that value; the string options take no integer. Nothing else changes.
pub proof fn lemma_set_int_sets_the_option(o: MysqlOptions, v: i32)
    ensures
        set_int_spec(o, MysqlOptionKind::Ssl, v) matches Some(n) && n.ssl == (v != 0) && same_except(
            o, n, false, true, false, false, false, false),
        set_int_spec(o, MysqlOptionKind::SslVerifyCert, v) matches Some(n) && n.ssl_verify_cert == (v != 0)
            && same_except(o, n, false, false, true, false, false, false),
        set_int_spec(o, MysqlOptionKind::AutoReconnect, v) matches Some(n) && n.auto_reconnect == (v != 0)
            && same_except(o, n, false, false, false, false, true, false),
        (set_int_spec(o, MysqlOptionKind::Port, v) is Some) == (0 <= v <= 65535),
        set_int_spec(o, MysqlOptionKind::Port, v) matches Some(n) ==> n.port == v && same_except(
            o, n, true, false, false, false, false, false),
        (set_int_spec(o, MysqlOptionKind::ConnectTimeout, v) is Some) == (v >= 0),
        set_int_spec(o, MysqlOptionKind::ConnectTimeout, v) matches Some(n) ==> n.connect_timeout == Some(v as u32)
            && same_except(o, n, false, false, false, true, false, false),
        (set_int_spec(o, MysqlOptionKind::PoolSize, v) is Some) == (v >= 1),
        set_int_spec(o, MysqlOptionKind::PoolSize, v) matches Some(n) ==> n.pool_size == Some(v as u32)
            && same_except(o, n, false, false, false, false, false, true),
        set_int_spec(o, MysqlOptionKind::SslCa, v) is None,
        set_int_spec(o, MysqlOptionKind::SslCert, v) is None,
        set_int_spec(o, MysqlOptionKind::SslKey, v) is None,
{
}

/// Setting a switch twice is the same as setting it once to the second
/// value: the last setting wins.
pub proof fn lemma_switch_last_set_wins(o: MysqlOptions, option: MysqlOptionKind, v: i32, w: i32)
    requires
        option == MysqlOptionKind::Ssl || option == MysqlOptionKind::SslVerifyCert || option
            == MysqlOptionKind::AutoReconnect,
    ensures
        set_int_spec(set_int_spec(o, option, v)->0, option, w) == set_int_spec(o, option, w),
{
}

} // verus!
