use vstd::prelude::*;

verus! {

/// The phase of a request in which a plugin runs.
#[derive(Debug, Clone, Copy, PartialEq, Eq, Structural)]
pub enum PluginStep {
    Request,
    ProxyUpstream,
    UpstreamResponse,
}

/// The kinds of plugin.
#[derive(Debug, Clone, Copy, PartialEq, Eq, Structural)]
pub enum PluginCategory {
    Limit,
    OwaspCrsPlugin,
    WirefilterPlugin,
}

/// Whether a request plugin may run in `step`.
pub open spec fn request_step(step: PluginStep) -> bool {
    step == PluginStep::Request || step == PluginStep::ProxyUpstream
}

impl PluginStep {
    /// The name of the step.
    pub fn as_str(&self) -> (r: &'static str)
        ensures
            r@ == step_name(*self),
    {
        match self {
            PluginStep::Request => "request",
            PluginStep::ProxyUpstream => "proxy_upstream",
            PluginStep::UpstreamResponse => "upstream_response",
        }
    }
}

pub open spec fn step_name(s: PluginStep) -> Seq<char> {
    match s {
        PluginStep::Request => "request"@,
        PluginStep::ProxyUpstream => "proxy_upstream"@,
        PluginStep::UpstreamResponse => "upstream_response"@,
    }
}

impl PluginCategory {
    /// The name of the category.
    pub fn as_str(&self) -> (r: &'static str)
        ensures
            r@ == category_name(*self),
    {
        match self {
            PluginCategory::Limit => "limit",
            PluginCategory::OwaspCrsPlugin => "owasp_crs_plugin",
            PluginCategory::WirefilterPlugin => "wirefilter_plugin",
        }
    }
}

pub open spec fn category_name(c: PluginCategory) -> Seq<char> {
    match c {
        PluginCategory::Limit => "limit"@,
        PluginCategory::OwaspCrsPlugin => "owasp_crs_plugin"@,
        PluginCategory::WirefilterPlugin => "wirefilter_plugin"@,
    }
}

} // verus!

verus! {

/// A value of a plugin's configuration.
#[derive(Clone)]
pub enum ConfValue {
    Str(String),
    List(Vec<String>),
}

/// A plugin's configuration: named values, the first of a name counting.
#[derive(Clone)]
pub struct PluginConf {
    pub values: Vec<(String, ConfValue)>,
}

/// The string under `key`, or empty.
pub open spec fn conf_str(values: Seq<(String, ConfValue)>, key: Seq<char>) -> Seq<char>
    decreases values.len(),
{
    if values.len() == 0 {
        Seq::empty()
    } else if values[0].0@ == key {
        match values[0].1 {
            ConfValue::Str(s) => s@,
            ConfValue::List(_) => Seq::empty(),
        }
    } else {
        conf_str(values.subrange(1, values.len() as int), key)
    }
}

/// The list under `key`, or empty.
pub open spec fn conf_list(values: Seq<(String, ConfValue)>, key: Seq<char>) -> Seq<String>
    decreases values.len(),
{
    if values.len() == 0 {
        Seq::empty()
    } else if values[0].0@ == key {
        match values[0].1 {
            ConfValue::List(l) => l@,
            ConfValue::Str(_) => Seq::empty(),
        }
    } else {
        conf_list(values.subrange(1, values.len() as int), key)
    }
}

/// The step named by `s`; any other text means the request step.
pub open spec fn step_of(s: Seq<char>) -> PluginStep {
    if s == "proxy_upstream"@ {
        PluginStep::ProxyUpstream
    } else if s == "upstream_response"@ {
        PluginStep::UpstreamResponse
    } else {
        PluginStep::Request
    }
}

/// The index of the first entry named `key`, or the length.
fn conf_index(values: &Vec<(String, ConfValue)>, key: &str) -> (r: usize)
    ensures
        r <= values@.len(),
        r < values@.len() ==> values@[r as int].0@ == key@,
        conf_str(values@, key@) == (if r < values@.len() {
            match values@[r as int].1 {
                ConfValue::Str(s) => s@,
                ConfValue::List(_) => Seq::empty(),
            }
        } else {
            Seq::empty()
        }),
        conf_list(values@, key@) == (if r < values@.len() {
            match values@[r as int].1 {
                ConfValue::List(l) => l@,
                ConfValue::Str(_) => Seq::empty(),
            }
        } else {
            Seq::<String>::empty()
        }),
{
    let mut i: usize = 0;
    assert(values@.subrange(0, values@.len() as int) =~= values@);
    while i < values.len()
        invariant
            i <= values@.len(),
            conf_str(values@, key@) == conf_str(values@.subrange(i as int, values@.len() as int), key@),
            conf_list(values@, key@) == conf_list(values@.subrange(i as int, values@.len() as int), key@),
        decreases values@.len() - i,
    {
        if crate::request::keys_equal(values[i].0.as_str(), key) {
            return i;
        }
        assert(values@.subrange(i as int, values@.len() as int).subrange(1, values@.len() - i) =~= values@.subrange(i + 1, values@.len() as int));
        i = i + 1;
    }
    i
}

/// The string under `key`, or empty.
pub fn get_str_conf(conf: &PluginConf, key: &str) -> (r: String)
    ensures
        r@ == conf_str(conf.values@, key@),
{
    proof {
        assert(conf.values@.subrange(0, conf.values@.len() as int) =~= conf.values@);
    }
    let i = conf_index(&conf.values, key);
    if i < conf.values.len() {
        match &conf.values[i].1 {
            ConfValue::Str(s) => s.clone(),
            ConfValue::List(_) => String::new(),
        }
    } else {
        String::new()
    }
}

/// The list under `key`, or empty.
pub fn get_str_slice_conf(conf: &PluginConf, key: &str) -> (r: Vec<String>)
    ensures
        r@.len() == conf_list(conf.values@, key@).len(),
        forall|i: int| 0 <= i < r@.len() ==> (#[trigger] r@[i])@ == conf_list(conf.values@, key@)[i]@,
{
    proof {
        assert(conf.values@.subrange(0, conf.values@.len() as int) =~= conf.values@);
    }
    let i = conf_index(&conf.values, key);
    let mut r: Vec<String> = Vec::new();
    if i < conf.values.len() {
        match &conf.values[i].1 {
            ConfValue::List(l) => {
                let mut k: usize = 0;
                while k < l.len()
                    invariant
                        k <= l@.len(),
                        r@.len() == k,
                        forall|j: int| 0 <= j < k ==> (#[trigger] r@[j])@ == l@[j]@,
                    decreases l@.len() - k,
                {
                    r.push(l[k].clone());
                    k = k + 1;
                }
            },
            ConfValue::Str(_) => {},
        }
    }
    r
}

/// The step the configuration names under `step`.
pub fn get_step_conf(conf: &PluginConf) -> (r: PluginStep)
    ensures
        r == step_of(conf_str(conf.values@, "step"@)),
{
    let s = get_str_conf(conf, "step");
    if crate::request::keys_equal(s.as_str(), "proxy_upstream") {
        PluginStep::ProxyUpstream
    } else if crate::request::keys_equal(s.as_str(), "upstream_response") {
        PluginStep::UpstreamResponse
    } else {
        PluginStep::Request
    }
}

/// Errors of plugin configuration.
#[derive(Debug)]
pub enum PluginError {
    Invalid { category: String, message: String },
}

/// A response written by the proxy itself.
pub struct HttpResponse {
    pub status: u16,
    pub body: String,
    pub headers: Vec<(String, String)>,
}

} // verus!
