use vstd::prelude::*;
use crate::location::{LocationConf, UpstreamConf, copy_opt_string, location_conf_view, opt_str, upstream_conf_view};
use crate::request::keys_equal;
use crate::server::{ProxyPluginConf, ServerConf, ERROR_TEMPLATE};
use base64::engine::general_purpose::STANDARD;
use base64::Engine;

verus! {

/// What decoding `s` as standard base64 gives, when it is valid.
pub uninterp spec fn base64_decoded(s: Seq<char>) -> Option<Seq<u8>>;

/// Relies on base64's `STANDARD.decode`: the bytes, or none for invalid input.
#[verifier::external_body]
fn decode_base64(s: &str) -> (r: Option<Vec<u8>>)
    ensures
        r is Some <==> base64_decoded(s@) is Some,
        r is Some ==> r->Some_0@ == base64_decoded(s@)->Some_0,
{
    STANDARD.decode(s).ok()
}

/// The settings of one server in the configuration document.
pub struct ServerItemConf {
    pub addr: String,
    pub locations: Option<Vec<String>>,
    /// PEM certificate, base64 encoded.
    pub tls_cert: Option<String>,
    /// PEM key, base64 encoded.
    pub tls_key: Option<String>,
    pub authorization: Option<String>,
    pub stats_path: Option<String>,
    pub admin_path: Option<String>,
    pub access_log: Option<String>,
    pub threads: Option<usize>,
}

/// The configuration document.
pub struct PingapConf {
    pub upstreams: Vec<(String, UpstreamConf)>,
    pub locations: Vec<(String, LocationConf)>,
    pub servers: Vec<(String, ServerItemConf)>,
    pub proxy_plugins: Vec<(String, ProxyPluginConf)>,
    pub error_template: String,
}

/// The order of locations: heavier first, equal weights in configured order.
pub open spec fn before(w: Seq<u16>, a: int, b: int) -> bool {
    w[a] > w[b] || (w[a] == w[b] && a < b)
}

pub open spec fn ordered(w: Seq<u16>, order: Seq<usize>) -> bool {
    forall|i: int, j: int| 0 <= i < j < order.len() ==> before(w, #[trigger] order[i] as int, #[trigger] order[j] as int)
}

/// Each of `0 .. n` once, ordered by weight, heaviest first, ties in index
/// order.
pub fn weight_order(w: &Vec<u16>) -> (r: Vec<usize>)
    ensures
        r@.len() == w@.len(),
        ordered(w@, r@),
        forall|k: int| 0 <= k < r@.len() ==> r@[k] < w@.len(),
        forall|x: usize| x < w@.len() ==> r@.contains(x),
{
    let mut r: Vec<usize> = Vec::new();
    let mut i: usize = 0;
    while i < w.len()
        invariant
            i <= w@.len(),
            r@.len() == i,
            ordered(w@, r@),
            forall|k: int| 0 <= k < r@.len() ==> r@[k] < i,
            forall|x: usize| x < i ==> r@.contains(x),
        decreases w@.len() - i,
    {
        let mut p: usize = 0;
        while p < r.len() && w[r[p]] >= w[i]
            invariant
                p <= r@.len(),
                i < w@.len(),
                forall|k: int| 0 <= k < r@.len() ==> r@[k] < i,
                forall|k: int| 0 <= k < p ==> w@[r@[k] as int] >= w@[i as int],
            decreases r@.len() - p,
        {
            p = p + 1;
        }
        let ghost old_r = r@;
        r.insert(p, i);
        proof {
            assert forall|a: int, b: int| 0 <= a < b < r@.len() implies before(w@, #[trigger] r@[a] as int, #[trigger] r@[b] as int) by {
                if b < p {
                    assert(r@[a] == old_r[a] && r@[b] == old_r[b]);
                } else if b == p {
                    assert(r@[a] == old_r[a]);
                } else if a == p {
                    assert(r@[b] == old_r[b - 1]);
                    assert(w@[old_r[p as int] as int] < w@[i as int]);
                    if b - 1 > p {
                        assert(before(w@, old_r[p as int] as int, old_r[b - 1] as int));
                    }
                } else if a < p {
                    assert(r@[a] == old_r[a] && r@[b] == old_r[b - 1]);
                } else {
                    assert(r@[a] == old_r[a - 1] && r@[b] == old_r[b - 1]);
                }
            }
            assert forall|x: usize| x < i + 1 implies r@.contains(x) by {
                if x == i {
                    assert(r@[p as int] == x);
                } else {
                    assert(old_r.contains(x));
                    let k = choose|k: int| 0 <= k < old_r.len() && old_r[k] == x;
                    if k < p {
                        assert(r@[k] == x);
                    } else {
                        assert(r@[k + 1] == x);
                    }
                }
            }
            assert forall|k: int| 0 <= k < r@.len() implies r@[k] < i + 1 by {
                if k < p {
                    assert(r@[k] == old_r[k]);
                } else if k > p {
                    assert(r@[k] == old_r[k - 1]);
                }
            }
        }
        i = i + 1;
    }
    r
}

/// Whether `names` holds `n`.
fn holds(names: &Vec<String>, n: &str) -> (r: bool)
    ensures
        r == exists|k: int| 0 <= k < names@.len() && (#[trigger] names@[k])@ == n@,
{
    let mut k: usize = 0;
    while k < names.len()
        invariant
            k <= names@.len(),
            forall|j: int| 0 <= j < k ==> (#[trigger] names@[j])@ != n@,
        decreases names@.len() - k,
    {
        if keys_equal(names[k].as_str(), n) {
            return true;
        }
        k = k + 1;
    }
    false
}

pub open spec fn named(names: Seq<String>, n: Seq<char>) -> bool {
    exists|k: int| 0 <= k < names.len() && (#[trigger] names[k])@ == n
}

pub open spec fn opt_bytes(o: Option<Vec<u8>>) -> Option<Seq<u8>> {
    match o {
        Some(b) => Some(b@),
        None => None,
    }
}

/// The decoded TLS material: invalid base64 gives no bytes.
pub open spec fn tls_bytes(v: Option<String>) -> Option<Seq<u8>> {
    match v {
        Some(s) => Some(match base64_decoded(s@) {
            Some(b) => b,
            None => Seq::empty(),
        }),
        None => None,
    }
}

fn decode_tls(v: &Option<String>) -> (r: Option<Vec<u8>>)
    ensures
        r is Some <==> v is Some,
        r is Some ==> r->Some_0@ == tls_bytes(*v)->Some_0,
{
    match v {
        Some(s) => Some(match decode_base64(s.as_str()) {
            Some(b) => b,
            None => Vec::new(),
        }),
        None => None,
    }
}

/// Whether the server lists a location name.
pub open spec fn is_listed(item: ServerItemConf, name: Seq<char>) -> bool {
    match item.locations {
        Some(l) => named(l@, name),
        None => false,
    }
}

/// The weights the locations of the document are ordered by.
pub open spec fn location_weights(locs: Seq<(String, LocationConf)>) -> Seq<u16> {
    locs.map_values(|p: (String, LocationConf)| weight_of(p.1))
}

/// `locs` are the document's locations at `idx`: the listed ones, each
/// once, heaviest first and equal weights in configured order.
pub open spec fn selection(conf: PingapConf, item: ServerItemConf, locs: Seq<(String, LocationConf)>, idx: Seq<usize>) -> bool {
    &&& idx.len() == locs.len()
    &&& forall|k: int| 0 <= k < idx.len() ==> {
        &&& #[trigger] idx[k] < conf.locations@.len()
        &&& is_listed(item, conf.locations@[idx[k] as int].0@)
        &&& locs[k].0@ == conf.locations@[idx[k] as int].0@
        &&& location_conf_view(locs[k].1) == location_conf_view(conf.locations@[idx[k] as int].1)
    }
    &&& forall|a: int, b: int| 0 <= a < b < idx.len() ==> before(location_weights(conf.locations@), #[trigger] idx[a] as int, #[trigger] idx[b] as int)
    &&& forall|j: int| 0 <= j < conf.locations@.len() && #[trigger] is_listed(item, conf.locations@[j].0@) ==> exists|k: int| 0 <= k < idx.len() && idx[k] == j
}

/// Whether a location of `locs` uses the upstream `name`.
pub open spec fn used_by(locs: Seq<(String, LocationConf)>, name: Seq<char>) -> bool {
    exists|k: int| 0 <= k < locs.len() && #[trigger] locs[k].1.upstream@ == name
}

/// `kept` are the document's upstreams that `locs` use.
pub open spec fn upstreams_kept(ups: Seq<(String, UpstreamConf)>, locs: Seq<(String, LocationConf)>, kept: Seq<(String, UpstreamConf)>) -> bool {
    &&& forall|u: int| 0 <= u < kept.len() ==> used_by(locs, #[trigger] kept[u].0@) && exists|i: int| 0 <= i < ups.len()
        && #[trigger] ups[i].0@ == kept[u].0@ && upstream_conf_view(ups[i].1) == upstream_conf_view(kept[u].1)
    &&& forall|i: int| 0 <= i < ups.len() && used_by(locs, #[trigger] ups[i].0@) ==> exists|u: int| 0 <= u < kept.len() && kept[u].0@ == ups[i].0@
}

/// What the conversion makes of server `i` of the document.
pub open spec fn converted(conf: PingapConf, sc: ServerConf, i: int) -> bool {
    let item = conf.servers@[i].1;
    &&& sc.name@ == conf.servers@[i].0@
    &&& sc.addr@ == item.addr@
    &&& !sc.admin
    &&& opt_bytes(sc.tls_cert) == tls_bytes(item.tls_cert)
    &&& opt_bytes(sc.tls_key) == tls_bytes(item.tls_key)
    &&& sc.error_template@ == if conf.error_template@.len() == 0 { ERROR_TEMPLATE@ } else { conf.error_template@ }
    &&& opt_str(sc.authorization) == opt_str(item.authorization)
    &&& opt_str(sc.stats_path) == opt_str(item.stats_path)
    &&& opt_str(sc.admin_path) == opt_str(item.admin_path)
    &&& opt_str(sc.access_log) == opt_str(item.access_log)
    &&& sc.threads == item.threads
    &&& exists|idx: Seq<usize>| #[trigger] selection(conf, item, sc.locations@, idx)
    &&& upstreams_kept(conf.upstreams@, sc.locations@, sc.upstreams@)
}

/// The server configurations of the document, one per server: each with
/// the locations it lists, in the order of `weight_order`, the
/// upstreams those locations use, its decoded TLS material, and the error
/// page of the document or the default one.
pub fn server_confs(conf: &PingapConf) -> (r: Vec<ServerConf>)
    ensures
        r@.len() == conf.servers@.len(),
        forall|i: int| 0 <= i < r@.len() ==> converted(*conf, #[trigger] r@[i], i),
{
    let mut weights: Vec<u16> = Vec::new();
    let mut j: usize = 0;
    while j < conf.locations.len()
        invariant
            j <= conf.locations@.len(),
            weights@.len() == j,
            forall|k: int| 0 <= k < j ==> weights@[k] == weight_of(#[trigger] conf.locations@[k].1),
        decreases conf.locations@.len() - j,
    {
        weights.push(match conf.locations[j].1.weight {
            Some(w) => w,
            None => 0,
        });
        j = j + 1;
    }
    let order = weight_order(&weights);
    let mut r: Vec<ServerConf> = Vec::new();
    let mut i: usize = 0;
    while i < conf.servers.len()
        invariant
            i <= conf.servers@.len(),
            r@.len() == i,
            order@.len() == weights@.len() == conf.locations@.len(),
            ordered(weights@, order@),
            forall|k: int| 0 <= k < order@.len() ==> order@[k] < weights@.len(),
            forall|x: usize| x < weights@.len() ==> #[trigger] order@.contains(x),
            forall|k: int| 0 <= k < weights@.len() ==> weights@[k] == weight_of(#[trigger] conf.locations@[k].1),
            forall|s: int| 0 <= s < i ==> converted(*conf, #[trigger] r@[s], s),
        decreases conf.servers@.len() - i,
    {
        let item = &conf.servers[i].1;
        let empty: Vec<String> = Vec::new();
        let listed = match &item.locations {
            Some(l) => l,
            None => &empty,
        };
        let mut locations: Vec<(String, LocationConf)> = Vec::new();
        let mut used: Vec<String> = Vec::new();
        let mut k: usize = 0;
        let ghost mut sel: Seq<usize> = Seq::empty();
        let ghost mut pos: Seq<int> = Seq::empty();
        while k < order.len()
            invariant
                k <= order@.len(),
                order@.len() == weights@.len() == conf.locations@.len(),
                ordered(weights@, order@),
                forall|q: int| 0 <= q < order@.len() ==> order@[q] < weights@.len(),
                forall|x: usize| x < weights@.len() ==> #[trigger] order@.contains(x),
                item.locations is None ==> listed@.len() == 0,
                item.locations is Some ==> *listed == item.locations->Some_0,
                *item == conf.servers@[i as int].1,
                sel.len() == locations@.len() && pos.len() == locations@.len() && used@.len() == locations@.len(),
                forall|q: int| 0 <= q < pos.len() ==> 0 <= #[trigger] pos[q] < k && sel[q] == order@[pos[q]],
                forall|a: int, b: int| 0 <= a < b < pos.len() ==> #[trigger] pos[a] < #[trigger] pos[b],
                forall|q: int| 0 <= q < sel.len() ==> {
                    &&& #[trigger] sel[q] < conf.locations@.len()
                    &&& is_listed(*item, conf.locations@[sel[q] as int].0@)
                    &&& locations@[q].0@ == conf.locations@[sel[q] as int].0@
                    &&& location_conf_view(locations@[q].1) == location_conf_view(conf.locations@[sel[q] as int].1)
                    &&& used@[q]@ == locations@[q].1.upstream@
                },
                forall|t: int| 0 <= t < k && #[trigger] is_listed(*item, conf.locations@[order@[t] as int].0@) ==> exists|q: int| 0 <= q < pos.len() && pos[q] == t,
            decreases order@.len() - k,
        {
            let idx = order[k];
            let (name, lc) = (&conf.locations[idx].0, &conf.locations[idx].1);
            if holds(listed, name.as_str()) {
                assert(is_listed(*item, conf.locations@[idx as int].0@));
                used.push(lc.upstream.clone());
                locations.push((name.clone(), lc.clone()));
                let ghost old_pos = pos;
                proof {
                    sel = sel.push(idx);
                    pos = pos.push(k as int);
                    assert forall|t: int| 0 <= t < k + 1 && #[trigger] is_listed(*item, conf.locations@[order@[t] as int].0@) implies exists|q: int| 0 <= q < pos.len() && pos[q] == t by {
                        if t == k {
                            assert(pos[pos.len() - 1] == t);
                        } else {
                            let q = choose|q: int| 0 <= q < old_pos.len() && old_pos[q] == t;
                            assert(pos[q] == t);
                        }
                    }
                }
            } else {
                assert(!is_listed(*item, conf.locations@[idx as int].0@));
                assert(order@[k as int] == idx);
            }
            k = k + 1;
        }
        proof {
            let w = location_weights(conf.locations@);
            assert(weights@ =~= w);
            assert forall|a: int, b: int| 0 <= a < b < sel.len() implies before(w, #[trigger] sel[a] as int, #[trigger] sel[b] as int) by {
                assert(pos[a] < pos[b]);
                assert(before(weights@, order@[pos[a]] as int, order@[pos[b]] as int));
            }
            assert forall|j: int| 0 <= j < conf.locations@.len() && #[trigger] is_listed(*item, conf.locations@[j].0@) implies exists|q: int| 0 <= q < sel.len() && sel[q] == j by {
                assert(order@.contains(j as usize));
                let t = choose|t: int| 0 <= t < order@.len() && order@[t] == j as usize;
                assert(is_listed(*item, conf.locations@[order@[t] as int].0@));
                let q = choose|q: int| 0 <= q < pos.len() && pos[q] == t;
                assert(sel[q] == j);
            }
            assert(selection(*conf, *item, locations@, sel));
        }
        assert forall|q: int| 0 <= q < used@.len() implies #[trigger] used@[q]@ == locations@[q].1.upstream@ by {
            assert(sel[q] < conf.locations@.len());
        }
        let mut upstreams: Vec<(String, UpstreamConf)> = Vec::new();
        let mut u: usize = 0;
        while u < conf.upstreams.len()
            invariant
                u <= conf.upstreams@.len(),
                used@.len() == locations@.len(),
                forall|q: int| 0 <= q < used@.len() ==> #[trigger] used@[q]@ == locations@[q].1.upstream@,
                forall|v: int| 0 <= v < upstreams@.len() ==> used_by(locations@, #[trigger] upstreams@[v].0@) && exists|t: int| 0 <= t < conf.upstreams@.len()
                    && #[trigger] conf.upstreams@[t].0@ == upstreams@[v].0@ && upstream_conf_view(conf.upstreams@[t].1) == upstream_conf_view(upstreams@[v].1),
                forall|t: int| 0 <= t < u && used_by(locations@, #[trigger] conf.upstreams@[t].0@) ==> exists|v: int| 0 <= v < upstreams@.len() && upstreams@[v].0@ == conf.upstreams@[t].0@,
            decreases conf.upstreams@.len() - u,
        {
            let name = &conf.upstreams[u].0;
            if holds(&used, name.as_str()) {
                proof {
                    let q = choose|q: int| 0 <= q < used@.len() && (#[trigger] used@[q])@ == name@;
                    assert(locations@[q].1.upstream@ == name@);
                }
                let ghost old_ups = upstreams@;
                upstreams.push((conf.upstreams[u].0.clone(), conf.upstreams[u].1.clone()));
                proof {
                    let v = upstreams@.len() - 1;
                    assert(conf.upstreams@[u as int].0@ == upstreams@[v].0@);
                    assert forall|t: int| 0 <= t < u + 1 && used_by(locations@, #[trigger] conf.upstreams@[t].0@) implies exists|w: int| 0 <= w < upstreams@.len() && upstreams@[w].0@ == conf.upstreams@[t].0@ by {
                        if t == u {
                            assert(upstreams@[v].0@ == conf.upstreams@[t].0@);
                        } else {
                            let w = choose|w: int| 0 <= w < old_ups.len() && old_ups[w].0@ == conf.upstreams@[t].0@;
                            assert(upstreams@[w] == old_ups[w]);
                        }
                    }
                }
            } else {
                proof {
                    if used_by(locations@, name@) {
                        let q = choose|q: int| 0 <= q < locations@.len() && #[trigger] locations@[q].1.upstream@ == name@;
                        assert(used@[q]@ == name@);
                    }
                }
            }
            u = u + 1;
        }
        let error_template = if conf.error_template.as_str().unicode_len() == 0 {
            String::from_str(ERROR_TEMPLATE)
        } else {
            conf.error_template.clone()
        };
        let tls_cert = decode_tls(&item.tls_cert);
        let tls_key = decode_tls(&item.tls_key);
        assert(opt_bytes(tls_cert) == tls_bytes(item.tls_cert));
        assert(opt_bytes(tls_key) == tls_bytes(item.tls_key));
        let ghost old_r = r@;
        r.push(ServerConf {
            name: conf.servers[i].0.clone(),
            addr: item.addr.clone(),
            admin: false,
            stats_path: copy_opt_string(&item.stats_path),
            admin_path: copy_opt_string(&item.admin_path),
            access_log: copy_opt_string(&item.access_log),
            authorization: copy_opt_string(&item.authorization),
            upstreams,
            locations,
            proxy_plugins: conf.proxy_plugins.clone(),
            tls_cert,
            tls_key,
            threads: item.threads,
            error_template,
        });
        assert(selection(*conf, *item, r@[i as int].locations@, sel));
        assert(converted(*conf, r@[i as int], i as int));
        assert forall|t: int| 0 <= t < i + 1 implies converted(*conf, #[trigger] r@[t], t) by {
            if t < i {
                assert(r@[t] == old_r[t]);
            }
        }
        i = i + 1;
    }
    r
}

/// The weight a location is ordered by: the configured one, or zero.
pub open spec fn weight_of(l: LocationConf) -> u16 {
    match l.weight {
        Some(w) => w,
        None => 0,
    }
}

} // verus!
