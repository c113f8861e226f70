use vstd::prelude::*;
use crate::text::{push_str, push_dec_signed, dec_signed};
use crate::webhook::{Notification, NotificationCategory, NotificationLevel};

verus! {

/// Validity period of a TLS certificate, in seconds since the epoch.
#[derive(Debug, Clone)]
pub struct CertificateInfo {
    pub not_after: i64,
    pub not_before: i64,
    pub issuer: String,
}

/// Seven days: how long before expiry a certificate is reported.
pub const DEFAULT_TIME_OFFSET: i64 = 604800;

/// One day: how often the certificates are checked.
pub const CHECK_INTERVAL_SECS: u64 = 86400;

pub open spec fn will_expire(c: CertificateInfo, offset: int, now: int) -> bool {
    now > c.not_after - offset
}

pub open spec fn not_yet_valid(c: CertificateInfo, now: int) -> bool {
    now < c.not_before
}

pub open spec fn expire_message(name: Seq<char>, c: CertificateInfo) -> Seq<char> {
    name + " cert will be expired, issuer: "@ + c.issuer@ + ", expired date: "@ + dec_signed(
        c.not_after as int,
    )
}

pub open spec fn invalid_message(name: Seq<char>, c: CertificateInfo) -> Seq<char> {
    name + " cert is not valid, issuer: "@ + c.issuer@ + ", valid date: "@ + dec_signed(
        c.not_before as int,
    )
}

/// What is wrong with one certificate, if anything: expiry is checked first.
pub open spec fn cert_problem(name: Seq<char>, c: CertificateInfo, offset: int, now: int) -> Option<
    Seq<char>,
> {
    if will_expire(c, offset, now) {
        Some(expire_message(name, c))
    } else if not_yet_valid(c, now) {
        Some(invalid_message(name, c))
    } else {
        None
    }
}

/// The problem of the first certificate of `list` that has one.
pub open spec fn first_problem(list: Seq<(String, CertificateInfo)>, offset: int, now: int) -> Option<
    Seq<char>,
>
    decreases list.len(),
{
    if list.len() == 0 {
        None
    } else {
        match cert_problem(list[0].0@, list[0].1, offset, now) {
            Some(m) => Some(m),
            None => first_problem(list.subrange(1, list.len() as int), offset, now),
        }
    }
}

proof fn lemma_first_problem_prefix(list: Seq<(String, CertificateInfo)>, i: int, offset: int, now: int)
    requires
        0 <= i < list.len(),
        forall|k: int| 0 <= k < i ==> cert_problem(#[trigger] list[k].0@, list[k].1, offset, now).is_none(),
    ensures
        first_problem(list, offset, now) == match cert_problem(list[i].0@, list[i].1, offset, now) {
            Some(m) => Some(m),
            None => first_problem(list.subrange(i + 1, list.len() as int), offset, now),
        },
    decreases i,
{
    if i > 0 {
        let tail = list.subrange(1, list.len() as int);
        assert(cert_problem(list[0].0@, list[0].1, offset, now).is_none());
        assert forall|k: int| 0 <= k < i - 1 implies cert_problem(#[trigger] tail[k].0@, tail[k].1, offset, now).is_none() by {
            assert(tail[k] == list[k + 1]);
        }
        lemma_first_problem_prefix(tail, i - 1, offset, now);
        assert(tail.subrange(i, tail.len() as int) =~= list.subrange(i + 1, list.len() as int));
    }
}

fn check_one(name: &String, cert: &CertificateInfo, time_offset: i64, now: i64) -> (r: Option<String>)
    ensures
        r.is_some() == cert_problem(name@, *cert, time_offset as int, now as int).is_some(),
        r.is_some() ==> r.unwrap()@ == cert_problem(name@, *cert, time_offset as int, now as int).unwrap(),
{
    if (now as i128) > (cert.not_after as i128) - (time_offset as i128) {
        let mut m = name.clone();
        push_str(&mut m, " cert will be expired, issuer: ");
        push_str(&mut m, cert.issuer.as_str());
        push_str(&mut m, ", expired date: ");
        push_dec_signed(&mut m, cert.not_after);
        return Some(m);
    }
    if now < cert.not_before {
        let mut m = name.clone();
        push_str(&mut m, " cert is not valid, issuer: ");
        push_str(&mut m, cert.issuer.as_str());
        push_str(&mut m, ", valid date: ");
        push_dec_signed(&mut m, cert.not_before);
        return Some(m);
    }
    None
}

/// Checks the validity period of each certificate at time `now`. The first
/// certificate that expires within `time_offset` seconds, or is not valid
/// yet, gives an error that names it.
pub fn validity_check(validity_list: &[(String, CertificateInfo)], time_offset: i64, now: i64) -> (r:
    Result<(), String>)
    ensures
        r is Ok <==> first_problem(validity_list@, time_offset as int, now as int) is None,
        r is Err ==> first_problem(validity_list@, time_offset as int, now as int) == Some(r->Err_0@),
{
    let mut i: usize = 0;
    while i < validity_list.len()
        invariant
            i <= validity_list@.len(),
            forall|k: int| 0 <= k < i ==> cert_problem(#[trigger] validity_list@[k].0@, validity_list@[k].1, time_offset as int, now as int).is_none(),
        decreases validity_list@.len() - i,
    {
        let item = &validity_list[i];
        proof {
            lemma_first_problem_prefix(validity_list@, i as int, time_offset as int, now as int);
        }
        match check_one(&item.0, &item.1, time_offset, now) {
            Some(m) => {
                return Err(m);
            },
            None => {},
        }
        i = i + 1;
    }
    proof {
        lemma_first_problem_none(validity_list@, time_offset as int, now as int);
    }
    Ok(())
}

proof fn lemma_first_problem_none(list: Seq<(String, CertificateInfo)>, offset: int, now: int)
    requires
        forall|k: int| 0 <= k < list.len() ==> cert_problem(#[trigger] list[k].0@, list[k].1, offset, now).is_none(),
    ensures
        first_problem(list, offset, now) is None,
    decreases list.len(),
{
    if list.len() > 0 {
        let tail = list.subrange(1, list.len() as int);
        assert(cert_problem(list[0].0@, list[0].1, offset, now).is_none());
        assert forall|k: int| 0 <= k < tail.len() implies cert_problem(#[trigger] tail[k].0@, tail[k].1, offset, now).is_none() by {
            assert(tail[k] == list[k + 1]);
        }
        lemma_first_problem_none(tail, offset, now);
    }
}

/// The periodic certificate check: its offset and the certificates it watches.
pub struct ValidityChecker {
    pub time_offset: i64,
    pub tls_cert_info_list: Vec<(String, CertificateInfo)>,
}

impl ValidityChecker {
    /// One run of the check at time `now`: a warning for the webhook when a
    /// certificate expires soon or is not valid yet, else nothing.
    pub fn run(&self, now: i64) -> (r: Option<Notification>)
        ensures
            r is None <==> first_problem(self.tls_cert_info_list@, self.time_offset as int, now as int) is None,
            r is Some ==> {
                &&& r->Some_0.level == NotificationLevel::Warn
                &&& r->Some_0.category == NotificationCategory::TlsValidity
                &&& first_problem(self.tls_cert_info_list@, self.time_offset as int, now as int) == Some(r->Some_0.msg@)
            },
    {
        match validity_check(self.tls_cert_info_list.as_slice(), self.time_offset, now) {
            Ok(()) => None,
            Err(msg) => Some(
                Notification { level: NotificationLevel::Warn, category: NotificationCategory::TlsValidity, msg },
            ),
        }
    }
}

/// A named background task that runs a checker at a fixed interval.
pub struct ValidityService {
    pub name: String,
    pub interval_secs: u64,
    pub checker: ValidityChecker,
}

/// The certificate validity service: checks the certificates once a day and
/// warns seven days before one expires.
pub fn new_tls_validity_service(tls_cert_info_list: Vec<(String, CertificateInfo)>) -> (r: ValidityService)
    ensures
        r.name@ == "Tls validity checker"@,
        r.interval_secs == CHECK_INTERVAL_SECS,
        r.checker.time_offset == DEFAULT_TIME_OFFSET,
        r.checker.tls_cert_info_list@ == tls_cert_info_list@,
{
    ValidityService {
        name: String::from_str("Tls validity checker"),
        interval_secs: CHECK_INTERVAL_SECS,
        checker: ValidityChecker { time_offset: DEFAULT_TIME_OFFSET, tls_cert_info_list },
    }
}

} // verus!
