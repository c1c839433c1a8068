//! Reading the host that a request is for from its `Host` header.
use vstd::prelude::*;

verus! {

/// The `Host` header is repeated, or holds bytes that are not visible ASCII.
#[derive(Clone, Copy, PartialEq, Eq, Structural, Debug)]
pub struct InvalidHostHeader;

/// Whether a header byte reads as text: visible ASCII, space, or tab.
pub open spec fn is_visible_ascii(b: u8) -> bool {
    (32 <= b && b < 127) || b == 9
}

/// Whether every byte of a header value reads as text.
pub open spec fn all_visible_ascii(bytes: Seq<u8>) -> bool {
    forall|i: int| 0 <= i < bytes.len() ==> is_visible_ascii(#[trigger] bytes[i])
}

/// The host of a request, given the values of its `Host` headers: none when
/// there is no such header; an error when there are several, or when the
/// value is not text; the value otherwise.
pub fn host(values: &Vec<Vec<u8>>) -> (result: Result<Option<Vec<u8>>, InvalidHostHeader>)
    ensures
        values.len() == 0 ==> result == Ok::<Option<Vec<u8>>, InvalidHostHeader>(None),
        values.len() > 1 ==> result is Err,
        values.len() == 1 ==> {
            &&& result is Err <==> !all_visible_ascii(values[0]@)
            &&& result is Err <==> exists|i: int|
                0 <= i < values[0]@.len() && (values[0]@[i] < 32 || values[0]@[i] > 126)
                    && values[0]@[i] != 9
            &&& result matches Ok(found) ==> (found matches Some(v) && v@ == values[0]@)
        },
{
    if values.len() == 0 {
        return Ok(None);
    }
    if values.len() > 1 {
        return Err(InvalidHostHeader);
    }
    let value = &values[0];
    let mut i: usize = 0;
    while i < value.len()
        invariant
            values.len() == 1,
            *value == values[0],
            0 <= i <= value.len(),
            forall|j: int| 0 <= j < i ==> is_visible_ascii(#[trigger] value@[j]),
        decreases value.len() - i,
    {
        let b = value[i];
        if !((32 <= b && b < 127) || b == 9) {
            assert(!is_visible_ascii(value@[i as int]));
            return Err(InvalidHostHeader);
        }
        i = i + 1;
    }
    Ok(Some(value.clone()))
}

/// The position of the last `:` in `bytes`, if any.
pub open spec fn last_colon(bytes: Seq<u8>) -> Option<int> {
    if exists|i: int| 0 <= i < bytes.len() && bytes[i] == 58 {
        Some(
            choose|i: int|
                0 <= i < bytes.len() && bytes[i] == 58 && forall|j: int|
                    i < j < bytes.len() ==> bytes[j] != 58,
        )
    } else {
        None
    }
}

/// The host name of a `Host` value: what comes before its last `:`, or the
/// whole value when it has none.
pub open spec fn spec_hostname(host: Seq<u8>) -> Seq<u8> {
    match last_colon(host) {
        Some(i) => host.take(i),
        None => host,
    }
}

/// An occurrence of `:` at `k` means there is a last one, at or after `k`.
proof fn lemma_last_colon_exists(bytes: Seq<u8>, k: int)
    requires
        0 <= k < bytes.len(),
        bytes[k] == 58,
    ensures
        exists|i: int|
            k <= i < bytes.len() && bytes[i] == 58 && forall|j: int|
                i < j < bytes.len() ==> bytes[j] != 58,
    decreases bytes.len() - k,
{
    if exists|j: int| k < j < bytes.len() && bytes[j] == 58 {
        let j = choose|j: int| k < j < bytes.len() && bytes[j] == 58;
        lemma_last_colon_exists(bytes, j);
    } else {
        assert(forall|j: int| k < j < bytes.len() ==> bytes[j] != 58);
    }
}

/// The host name is what comes before the last `:` of the value: a prefix
/// of it, followed by a `:` after which none comes; a value without `:` is
/// its own host name.
pub proof fn lemma_hostname(host: Seq<u8>)
    ensures
        ({
            let name = spec_hostname(host);
            &&& name.len() <= host.len()
            &&& name == host.take(name.len() as int)
            &&& (exists|i: int| 0 <= i < host.len() && host[i] == 58) ==> {
                &&& name.len() < host.len()
                &&& host[name.len() as int] == 58
                &&& forall|j: int| name.len() < j < host.len() ==> host[j] != 58
            }
            &&& !(exists|i: int| 0 <= i < host.len() && host[i] == 58) ==> name == host
        }),
{
    if exists|i: int| 0 <= i < host.len() && host[i] == 58 {
        let k = choose|i: int| 0 <= i < host.len() && host[i] == 58;
        lemma_last_colon_exists(host, k);
    } else {
        assert(host.take(host.len() as int) =~= host);
    }
}

/// The host name of a `Host` value, without the port after its last `:`.
pub fn hostname(host: &[u8]) -> (name: Vec<u8>)
    ensures
        name@ == spec_hostname(host@),
{
    let mut i: usize = host.len();
    while i > 0 && host[i - 1] != 58
        invariant
            0 <= i <= host.len(),
            forall|j: int| i <= j < host.len() ==> host@[j] != 58,
        decreases i,
    {
        i = i - 1;
    }
    let end = if i > 0 {
        i - 1
    } else {
        host.len()
    };
    proof {
        if i > 0 {
            let c = (i - 1) as int;
            assert(host@[c] == 58);
            assert(exists|k: int| 0 <= k < host@.len() && host@[k] == 58);
            let chosen = last_colon(host@)->0;
            assert(chosen == c) by {
                if chosen < c {
                } else if chosen > c {
                    assert(host@[chosen] != 58);
                }
            }
        } else {
            assert(!exists|k: int| 0 <= k < host@.len() && host@[k] == 58);
        }
    }
    let mut name: Vec<u8> = Vec::new();
    let mut k: usize = 0;
    while k < end
        invariant
            end <= host.len(),
            0 <= k <= end,
            name@ == host@.take(k as int),
        decreases end - k,
    {
        name.push(host[k]);
        k = k + 1;
        proof {
            assert(name@ =~= host@.take(k as int));
        }
    }
    proof {
        if end == host.len() {
            assert(host@.take(end as int) =~= host@);
        }
    }
    name
}


/// Which cache serves a request.
#[derive(Clone, Copy, PartialEq, Eq, Structural, Debug)]
pub enum HostChoice {
    /// The cache configured for the host at this position.
    Host(usize),
    /// The cache of the top-level upstream.
    Default,
}

/// The first position of `name` among `hosts`.
pub open spec fn first_position(hosts: Seq<Seq<char>>, name: Seq<char>) -> Option<int> {
    if exists|i: int| 0 <= i < hosts.len() && hosts[i] == name {
        Some(
            choose|i: int|
                0 <= i < hosts.len() && hosts[i] == name && forall|j: int|
                    0 <= j < i ==> hosts[j] != name,
        )
    } else {
        None
    }
}

/// An occurrence of `name` at `k` means there is a first one, at or before
/// `k`.
proof fn lemma_first_occurrence_exists(hosts: Seq<Seq<char>>, name: Seq<char>, k: int)
    requires
        0 <= k < hosts.len(),
        hosts[k] == name,
    ensures
        exists|i: int|
            0 <= i <= k && hosts[i] == name && forall|j: int| 0 <= j < i ==> hosts[j] != name,
    decreases k,
{
    if exists|j: int| 0 <= j < k && hosts[j] == name {
        let j = choose|j: int| 0 <= j < k && hosts[j] == name;
        lemma_first_occurrence_exists(hosts, name, j);
    } else {
        assert(forall|j: int| 0 <= j < k ==> hosts[j] != name);
    }
}

/// `first_position` is the least index at which `name` occurs among
/// `hosts`, and there is none exactly when it occurs nowhere.
pub proof fn lemma_first_position(hosts: Seq<Seq<char>>, name: Seq<char>)
    ensures
        first_position(hosts, name) matches Some(i) ==> {
            &&& 0 <= i < hosts.len()
            &&& hosts[i] == name
            &&& forall|j: int| 0 <= j < i ==> hosts[j] != name
        },
        first_position(hosts, name) is None <==> forall|i: int|
            0 <= i < hosts.len() ==> hosts[i] != name,
{
    if exists|i: int| 0 <= i < hosts.len() && hosts[i] == name {
        let k = choose|i: int| 0 <= i < hosts.len() && hosts[i] == name;
        lemma_first_occurrence_exists(hosts, name, k);
    }
}

/// The cache that serves a request for `host`: the one configured for that
/// host name, else the top-level one when there is one, else none.
pub open spec fn spec_select_host(hosts: Seq<Seq<char>>, has_default: bool, host: Option<Seq<char>>) -> Option<HostChoice> {
    let configured = match host {
        Some(name) => first_position(hosts, name),
        None => None,
    };
    match configured {
        Some(i) => Some(HostChoice::Host(i as usize)),
        None => if has_default {
            Some(HostChoice::Default)
        } else {
            None
        },
    }
}

/// The names of configured hosts.
pub open spec fn host_names(hosts: Seq<String>) -> Seq<Seq<char>> {
    hosts.map_values(|h: String| h@)
}

/// The characters of a host name, when there is one.
pub open spec fn optional_name(host: Option<&str>) -> Option<Seq<char>> {
    match host {
        Some(name) => Some(name@),
        None => None,
    }
}

/// Picks the cache that serves a request for `host` among the caches of the
/// configured `hosts` and, when `has_default`, the top-level cache.
pub fn select_host(hosts: &Vec<String>, has_default: bool, host: Option<&str>) -> (choice: Option<HostChoice>)
    ensures
        choice == spec_select_host(host_names(hosts@), has_default, optional_name(host)),
        host matches Some(name) ==> (exists|i: int| 0 <= i < hosts@.len() && hosts@[i]@ == name@)
            ==> (choice matches Some(HostChoice::Host(i)) && i < hosts@.len() && hosts@[i as int]@
            == name@ && forall|j: int| 0 <= j < i ==> hosts@[j]@ != name@),
        (host is None || forall|i: int| 0 <= i < hosts@.len() ==> hosts@[i]@ != host->0@)
            ==> choice == (if has_default {
            Some(HostChoice::Default)
        } else {
            None
        }),
{
    proof {
        if let Some(name) = host {
            let names = host_names(hosts@);
            lemma_first_position(names, name@);
            assert(forall|i: int| 0 <= i < hosts@.len() ==> #[trigger] names[i] == hosts@[i]@);
            if exists|i: int| 0 <= i < hosts@.len() && hosts@[i]@ == name@ {
                let k = choose|i: int| 0 <= i < hosts@.len() && hosts@[i]@ == name@;
                assert(names[k] == name@);
                let f = first_position(names, name@)->0;
                assert forall|j: int| 0 <= j < f implies hosts@[j]@ != name@ by {
                    assert(names[j] != name@);
                }
            } else {
                assert forall|i: int| 0 <= i < names.len() implies names[i] != name@ by {
                    assert(hosts@[i]@ != name@);
                }
            }
        }
    }
    let ghost names = host_names(hosts@);
    if let Some(name) = host {
        let wanted = String::from_str(name);
        let mut i: usize = 0;
        while i < hosts.len()
            invariant
                0 <= i <= hosts.len(),
                names == host_names(hosts@),
                host == Some(name),
                wanted@ == name@,
                forall|j: int| 0 <= j < i ==> names[j] != name@,
            decreases hosts.len() - i,
        {
            if hosts[i] == wanted {
                proof {
                    assert(names[i as int] == name@);
                    assert(0 <= i < names.len() && names[i as int] == name@ && forall|j: int|
                        0 <= j < i ==> names[j] != name@);
                    let found = first_position(names, name@)->0;
                    assert(found == i) by {
                        if found < i {
                            assert(names[found] != name@);
                        } else if found > i {
                            assert(names[i as int] != name@);
                        }
                    }
                    assert(hosts@[i as int]@ == name@);
                    assert forall|j: int| 0 <= j < i implies hosts@[j]@ != name@ by {
                        assert(names[j] != name@);
                    }
                }
                return Some(HostChoice::Host(i));
            }
            i = i + 1;
        }
        proof {
            assert(!exists|k: int| 0 <= k < names.len() && names[k] == name@);
        }
    }
    if has_default {
        Some(HostChoice::Default)
    } else {
        None
    }
}
} // verus!
