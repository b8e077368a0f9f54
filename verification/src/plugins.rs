//! A plugin system: plugins have a name and a report that running them
//! gives, some can be configured from a `key=value` text, and a manager runs
//! the registered plugins in the order they were registered.
use vstd::prelude::*;
use vstd::string::StringExecFns;
use crate::text::{
    chars_of, decimal, owned, parse_unsigned, parse_unsigned_slice, push_decimal,
    second_field, second_field_bounds, string_of_slice, trim_bounds, trim_spec,
};

verus! {

/// A plugin: it has a name and gives a report when it runs.
pub trait Plugin {
    /// The name of the plugin.
    spec fn plugin_name(&self) -> Seq<char>;

    /// The report that running the plugin gives.
    spec fn report(&self) -> Seq<char>;

    /// The name of the plugin.
    fn name(&self) -> (r: &str)
        ensures
            r@ == self.plugin_name(),
    ;

    /// Runs the plugin and returns its report.
    fn execute(&self) -> (r: String)
        ensures
            r@ == self.report(),
    ;
}

/// A plugin whose settings can be changed by a configuration text.
pub trait Configurable {
    /// Applies the settings found in `config`.
    fn configure(&mut self, config: &str);
}

/// The log level after configuring with `config`: the trimmed text after
/// `level=` (up to a further `level=`), or `level` unchanged when `config`
/// holds no `level=`.
pub open spec fn configured_level(level: Seq<char>, config: Seq<char>) -> Seq<char> {
    match second_field(config, "level="@) {
        Some(v) => trim_spec(v),
        None => level,
    }
}

/// The interval after configuring with `config`: the trimmed text after
/// `interval=` (up to a further `interval=`) read as a `u32`, or `interval`
/// unchanged when there is no `interval=` or the text is no such number.
pub open spec fn configured_interval(interval: u32, config: Seq<char>) -> u32 {
    match second_field(config, "interval="@) {
        Some(v) => match parse_unsigned(trim_spec(v), u32::MAX as int) {
            Some(n) => n as u32,
            None => interval,
        },
        None => interval,
    }
}

/// A plugin that logs at a configurable level.
pub struct LogPlugin {
    name: String,
    level: String,
}

impl LogPlugin {
    /// The name of the plugin.
    pub closed spec fn name_view(&self) -> Seq<char> {
        self.name@
    }

    /// The log level.
    pub closed spec fn level_view(&self) -> Seq<char> {
        self.level@
    }

    /// A log plugin named `name`, at level `info`.
    pub fn new(name: String) -> (r: Self)
        ensures
            r.name_view() == name@,
            r.level_view() == "info"@,
    {
        LogPlugin { name, level: owned("info") }
    }

    /// The log level.
    pub fn level(&self) -> (r: &str)
        ensures
            r@ == self.level_view(),
    {
        self.level.as_str()
    }
}

impl Plugin for LogPlugin {
    open spec fn plugin_name(&self) -> Seq<char> {
        self.name_view()
    }

    open spec fn report(&self) -> Seq<char> {
        "Logging at "@ + self.level_view() + " level"@
    }

    fn name(&self) -> (r: &str) {
        self.name.as_str()
    }

    fn execute(&self) -> (r: String) {
        let mut s = owned("Logging at ");
        s.append(self.level.as_str());
        s.append(" level");
        s
    }
}

impl Configurable for LogPlugin {
    fn configure(&mut self, config: &str)
        ensures
            final(self).name_view() == old(self).name_view(),
            final(self).level_view() == configured_level(old(self).level_view(), config@),
    {
        let cv = chars_of(config);
        let pat = chars_of("level=");
        match second_field_bounds(&cv, &pat) {
            Some((from, to)) => {
                let (a, b) = trim_bounds(&cv, from, to);
                self.level = string_of_slice(&cv, a, b);
            },
            None => {},
        }
    }
}

/// A plugin that collects metrics at a configurable interval in seconds.
pub struct MetricsPlugin {
    name: String,
    interval: u32,
}

impl MetricsPlugin {
    /// The name of the plugin.
    pub closed spec fn name_view(&self) -> Seq<char> {
        self.name@
    }

    /// The interval in seconds.
    pub closed spec fn interval_view(&self) -> u32 {
        self.interval
    }

    /// A metrics plugin named `name` collecting every `interval` seconds.
    pub fn new(name: String, interval: u32) -> (r: Self)
        ensures
            r.name_view() == name@,
            r.interval_view() == interval,
    {
        MetricsPlugin { name, interval }
    }

    /// The interval in seconds.
    pub fn interval(&self) -> (r: u32)
        ensures
            r == self.interval_view(),
    {
        self.interval
    }
}

impl Plugin for MetricsPlugin {
    open spec fn plugin_name(&self) -> Seq<char> {
        self.name_view()
    }

    open spec fn report(&self) -> Seq<char> {
        "Collecting metrics every "@ + decimal(self.interval_view() as nat) + " seconds"@
    }

    fn name(&self) -> (r: &str) {
        self.name.as_str()
    }

    fn execute(&self) -> (r: String) {
        let mut s = owned("Collecting metrics every ");
        push_decimal(&mut s, self.interval as u64);
        s.append(" seconds");
        s
    }
}

impl Configurable for MetricsPlugin {
    fn configure(&mut self, config: &str)
        ensures
            final(self).name_view() == old(self).name_view(),
            final(self).interval_view() == configured_interval(old(self).interval_view(), config@),
    {
        let cv = chars_of(config);
        let pat = chars_of("interval=");
        match second_field_bounds(&cv, &pat) {
            Some((from, to)) => {
                let (a, b) = trim_bounds(&cv, from, to);
                assert(second_field(config@, "interval="@) == Some(cv@.subrange(from as int, to as int)));
                assert(cv@.subrange(a as int, b as int) == trim_spec(cv@.subrange(from as int, to as int)));
                match parse_unsigned_slice(&cv, a, b, 0xffff_ffff) {
                    Some(n) => {
                        assert(parse_unsigned(cv@.subrange(a as int, b as int), u32::MAX as int) == Some(n as int));
                        self.interval = n as u32;
                    },
                    None => {
                        assert(parse_unsigned(cv@.subrange(a as int, b as int), u32::MAX as int) is None);
                    },
                }
            },
            None => {},
        }
    }
}

/// Runs plugins in the order they were registered. The plugin type is
/// generic (by default any plugin, `dyn Plugin`), so that the proofs speak
/// of the plugins through the `Plugin` contract alone.
pub struct PluginManager<P: Plugin + ?Sized = dyn Plugin> {
    plugins: Vec<Box<P>>,
}

impl<P: Plugin + ?Sized> PluginManager<P> {
    /// The names of the registered plugins, in order.
    pub closed spec fn names(&self) -> Seq<Seq<char>> {
        self.plugins@.map_values(|p: Box<P>| p.plugin_name())
    }

    /// The reports of the registered plugins, in order.
    pub closed spec fn reports(&self) -> Seq<Seq<char>> {
        self.plugins@.map_values(|p: Box<P>| p.report())
    }

    /// A manager with no plugin.
    pub fn new() -> (r: Self)
        ensures
            r.names() == Seq::<Seq<char>>::empty(),
            r.reports() == Seq::<Seq<char>>::empty(),
    {
        let r = PluginManager { plugins: Vec::new() };
        assert(r.names() =~= Seq::<Seq<char>>::empty());
        assert(r.reports() =~= Seq::<Seq<char>>::empty());
        r
    }

    /// Registers `plugin` after the others.
    pub fn register(&mut self, plugin: Box<P>)
        ensures
            final(self).names() == old(self).names().push(plugin.plugin_name()),
            final(self).reports() == old(self).reports().push(plugin.report()),
    {
        let ghost p = plugin;
        self.plugins.push(plugin);
        assert(self.names() =~= old(self).names().push(p.plugin_name()));
        assert(self.reports() =~= old(self).reports().push(p.report()));
    }

    /// Runs every plugin in order and returns their reports.
    pub fn run_all(&self) -> (r: Vec<String>)
        ensures
            r@.len() == self.reports().len(),
            forall|i: int| 0 <= i < r@.len() ==> #[trigger] r@[i]@ == self.reports()[i],
    {
        let mut r: Vec<String> = Vec::new();
        let mut i: usize = 0;
        while i < self.plugins.len()
            invariant
                i <= self.plugins@.len(),
                r@.len() == i,
                forall|k: int| 0 <= k < i ==> #[trigger] r@[k]@ == self.reports()[k],
            decreases self.plugins@.len() - i,
        {
            let report = self.plugins[i].execute();
            r.push(report);
            i = i + 1;
        }
        r
    }

    /// The number of registered plugins.
    pub fn plugin_count(&self) -> (r: usize)
        ensures
            r == self.names().len(),
    {
        self.plugins.len()
    }

    /// The names of the registered plugins, in order.
    pub fn get_plugin_names(&self) -> (r: Vec<&str>)
        ensures
            r@.len() == self.names().len(),
            forall|i: int| 0 <= i < r@.len() ==> #[trigger] r@[i]@ == self.names()[i],
    {
        let mut r: Vec<&str> = Vec::new();
        let mut i: usize = 0;
        while i < self.plugins.len()
            invariant
                i <= self.plugins@.len(),
                r@.len() == i,
                forall|k: int| 0 <= k < i ==> #[trigger] r@[k]@ == self.names()[k],
            decreases self.plugins@.len() - i,
        {
            let name = self.plugins[i].name();
            r.push(name);
            i = i + 1;
        }
        r
    }
}

} // verus!
