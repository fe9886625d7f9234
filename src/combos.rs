use vstd::prelude::*;
use crate::config::{strings_view, ConnectionInfo, ConnectionInfoView, SshConfig};

verus! {

/// `key` with a leading `~` replaced by `home`; any other key is kept as is.
pub open spec fn expand_home(key: Seq<char>, home: Seq<char>) -> Seq<char> {
    if key.len() > 0 && key[0] == '~' {
        home + key.subrange(1, key.len() as int)
    } else {
        key
    }
}

/// The text does not begin with `~`.
pub open spec fn no_leading_tilde(s: Seq<char>) -> bool {
    !(s.len() > 0 && s[0] == '~')
}

/// The list to draw from: `list` itself, or the single `over` when that is non-empty.
pub open spec fn effective(list: Seq<Seq<char>>, over: Seq<char>) -> Seq<Seq<char>> {
    if over.len() == 0 {
        list
    } else {
        seq![over]
    }
}

/// The candidate for one key, port and user.
pub open spec fn descriptor(
    host: Seq<char>,
    key: Seq<char>,
    port: u16,
    user: Seq<char>,
    home: Seq<char>,
) -> ConnectionInfoView {
    ConnectionInfoView { host, port, username: user, private_key: expand_home(key, home) }
}

/// The candidates for one key and one port: one per user, in user order.
pub open spec fn port_row(
    host: Seq<char>,
    key: Seq<char>,
    port: u16,
    users: Seq<Seq<char>>,
    home: Seq<char>,
) -> Seq<ConnectionInfoView> {
    users.map_values(|u: Seq<char>| descriptor(host, key, port, u, home))
}

/// The candidates for one key: a row per port, in port order.
pub open spec fn key_block(
    host: Seq<char>,
    key: Seq<char>,
    ports: Seq<u16>,
    users: Seq<Seq<char>>,
    home: Seq<char>,
) -> Seq<ConnectionInfoView>
    decreases ports.len(),
{
    if ports.len() == 0 {
        seq![]
    } else {
        key_block(host, key, ports.drop_last(), users, home) + port_row(
            host,
            key,
            ports.last(),
            users,
            home,
        )
    }
}

/// All candidates: a block per key, in key order; key outermost, then port,
/// then user.
pub open spec fn combinations(
    host: Seq<char>,
    keys: Seq<Seq<char>>,
    ports: Seq<u16>,
    users: Seq<Seq<char>>,
    home: Seq<char>,
) -> Seq<ConnectionInfoView>
    decreases keys.len(),
{
    if keys.len() == 0 {
        seq![]
    } else {
        combinations(host, keys.drop_last(), ports, users, home) + key_block(
            host,
            keys.last(),
            ports,
            users,
            home,
        )
    }
}

proof fn lemma_key_block_shape(
    host: Seq<char>,
    key: Seq<char>,
    ports: Seq<u16>,
    users: Seq<Seq<char>>,
    home: Seq<char>,
)
    ensures
        key_block(host, key, ports, users, home).len() == ports.len() * users.len(),
        forall|p: int, u: int|
            0 <= p < ports.len() && 0 <= u < users.len() ==> #[trigger] key_block(
                host,
                key,
                ports,
                users,
                home,
            )[p * users.len() + u] == descriptor(host, key, ports[p], users[u], home),
    decreases ports.len(),
{
    let n: int = users.len() as int;
    if ports.len() == 0 {
        assert(0 * n == 0);
    } else {
        let q = ports.len() - 1;
        lemma_key_block_shape(host, key, ports.drop_last(), users, home);
        assert(q * n + n == ports.len() * n) by (nonlinear_arith)
            requires q == ports.len() - 1;
        assert(port_row(host, key, ports.last(), users, home).len() == n);
        assert(key_block(host, key, ports, users, home).len() == ports.len() * n);
        assert forall|p: int, u: int| 0 <= p < ports.len() && 0 <= u < n implies #[trigger] key_block(
            host,
            key,
            ports,
            users,
            home,
        )[p * n + u] == descriptor(host, key, ports[p], users[u], home) by {
            assert(0 <= p * n + u) by (nonlinear_arith)
                requires 0 <= p, 0 <= u, 0 <= n;
            if p < q {
                assert(p * n + u < q * n) by (nonlinear_arith)
                    requires p < q, u < n, 0 <= u;
                assert(ports.drop_last()[p] == ports[p]);
            } else {
                assert(p * n + u - q * n == u) by (nonlinear_arith)
                    requires p == q;
            }
        }
    }
}

/// The candidates for `K` keys, `P` ports and `U` users number `K * P * U`,
/// and the one at position `(k * P + p) * U + u` pairs the `k`-th key with
/// the `p`-th port and the `u`-th user.
pub proof fn lemma_combinations_shape(
    host: Seq<char>,
    keys: Seq<Seq<char>>,
    ports: Seq<u16>,
    users: Seq<Seq<char>>,
    home: Seq<char>,
)
    ensures
        combinations(host, keys, ports, users, home).len() == keys.len() * ports.len()
            * users.len(),
        forall|k: int, p: int, u: int|
            0 <= k < keys.len() && 0 <= p < ports.len() && 0 <= u < users.len()
                ==> #[trigger] combinations(host, keys, ports, users, home)[(k * ports.len() + p)
                * users.len() + u] == descriptor(host, keys[k], ports[p], users[u], home),
    decreases keys.len(),
{
    let m: int = ports.len() as int;
    let n: int = users.len() as int;
    if keys.len() == 0 {
        assert(0 * m * n == 0) by (nonlinear_arith);
    } else {
        let q = keys.len() - 1;
        let prev = combinations(host, keys.drop_last(), ports, users, home);
        let block = key_block(host, keys.last(), ports, users, home);
        lemma_key_block_shape(host, keys.last(), ports, users, home);
        assert(combinations(host, keys, ports, users, home) == prev + block);
        lemma_combinations_shape(host, keys.drop_last(), ports, users, home);
        assert(q * m * n + m * n == keys.len() * m * n) by (nonlinear_arith)
            requires q == keys.len() - 1;
        assert(combinations(host, keys, ports, users, home).len() == keys.len() * m * n);
        assert forall|k: int, p: int, u: int|
            0 <= k < keys.len() && 0 <= p < m && 0 <= u < n implies #[trigger] combinations(
            host,
            keys,
            ports,
            users,
            home,
        )[(k * m + p) * n + u] == descriptor(host, keys[k], ports[p], users[u], home) by {
            assert(0 <= (k * m + p) * n + u) by (nonlinear_arith)
                requires 0 <= k, 0 <= p, 0 <= u, 0 <= m, 0 <= n;
            if k < q {
                assert((k * m + p) * n + u < q * m * n) by (nonlinear_arith)
                    requires k < q, 0 <= p < m, 0 <= u < n;
                assert(keys.drop_last()[k] == keys[k]);
                assert(prev[(k * m + p) * n + u] == descriptor(host, keys[k], ports[p], users[u], home));
            } else {
                assert((k * m + p) * n + u - q * m * n == p * n + u) by (nonlinear_arith)
                    requires k == q;
                assert(0 <= p * n + u < m * n) by (nonlinear_arith)
                    requires 0 <= p < m, 0 <= u < n;
                assert(prev.len() == q * m * n);
                assert(block[p * n + u] == descriptor(host, keys[k], ports[p], users[u], home));
            }
        }
    }
}

/// Each candidate's user is one of `users`, and its key is one of `keys`
/// with `~` expanded.
pub proof fn lemma_fields_drawn_from(
    host: Seq<char>,
    keys: Seq<Seq<char>>,
    ports: Seq<u16>,
    users: Seq<Seq<char>>,
    home: Seq<char>,
)
    ensures
        forall|i: int|
            0 <= i < combinations(host, keys, ports, users, home).len() ==> {
                let c = #[trigger] combinations(host, keys, ports, users, home)[i];
                &&& users.contains(c.username)
                &&& exists|k: int|
                    0 <= k < keys.len() && c.private_key == expand_home(keys[k], home)
            },
{
    lemma_combinations_shape(host, keys, ports, users, home);
    let m: int = ports.len() as int;
    let n: int = users.len() as int;
    let c = combinations(host, keys, ports, users, home);
    assert forall|i: int| 0 <= i < c.len() implies {
        let d = #[trigger] c[i];
        &&& users.contains(d.username)
        &&& exists|k: int| 0 <= k < keys.len() && d.private_key == expand_home(keys[k], home)
    } by {
        let k = i / (m * n);
        let r = i % (m * n);
        let p = r / n;
        let u = r % n;
        assert(0 < m * n) by (nonlinear_arith)
            requires i < keys.len() * m * n, 0 <= i, 0 <= m, 0 <= n;
        assert(0 < n && 0 < m) by (nonlinear_arith)
            requires 0 < m * n, 0 <= m, 0 <= n;
        assert(i == (k * m + p) * n + u && 0 <= k < keys.len() && 0 <= p < m && 0 <= u < n)
            by (nonlinear_arith)
            requires
                k == i / (m * n),
                r == i % (m * n),
                p == r / n,
                u == r % n,
                0 < m,
                0 < n,
                0 <= i < keys.len() * m * n,
        ;
        assert(c[i] == descriptor(host, keys[k], ports[p], users[u], home));
        assert(users[u] == c[i].username);
    }
}

/// With a non-empty user override, the candidates number `K * P`, and each
/// one's user is the override, whatever the configured users are.
pub proof fn lemma_username_override(
    host: Seq<char>,
    keys: Seq<Seq<char>>,
    ports: Seq<u16>,
    users: Seq<Seq<char>>,
    username: Seq<char>,
    home: Seq<char>,
)
    requires
        username.len() > 0,
    ensures
        ({
            let c = combinations(host, keys, ports, effective(users, username), home);
            &&& c.len() == keys.len() * ports.len() * 1
            &&& forall|i: int| 0 <= i < c.len() ==> (#[trigger] c[i]).username == username
        }),
{
    let uv = effective(users, username);
    lemma_combinations_shape(host, keys, ports, uv, home);
    lemma_fields_drawn_from(host, keys, ports, uv, home);
    let c = combinations(host, keys, ports, uv, home);
    assert forall|i: int| 0 <= i < c.len() implies (#[trigger] c[i]).username == username by {
        assert(uv.contains(c[i].username));
    }
}

/// When the home directory is non-empty and does not itself begin with `~`,
/// no candidate's key begins with `~`.
pub proof fn lemma_no_leading_tilde(
    host: Seq<char>,
    keys: Seq<Seq<char>>,
    ports: Seq<u16>,
    users: Seq<Seq<char>>,
    home: Seq<char>,
)
    requires
        home.len() > 0,
        home[0] != '~',
    ensures
        forall|i: int|
            0 <= i < combinations(host, keys, ports, users, home).len() ==> no_leading_tilde(
                (#[trigger] combinations(host, keys, ports, users, home)[i]).private_key,
            ),
{
    lemma_fields_drawn_from(host, keys, ports, users, home);
    let c = combinations(host, keys, ports, users, home);
    assert forall|i: int| 0 <= i < c.len() implies no_leading_tilde(
        (#[trigger] c[i]).private_key,
    ) by {
        let k = choose|k: int| 0 <= k < keys.len() && c[i].private_key == expand_home(keys[k], home);
        let key = keys[k];
        if key.len() > 0 && key[0] == '~' {
            assert((home + key.subrange(1, key.len() as int))[0] == home[0]);
        }
    }
}

/// There are no candidates exactly when one of the three lists is empty.
pub proof fn lemma_empty_iff_a_list_is_empty(
    host: Seq<char>,
    keys: Seq<Seq<char>>,
    ports: Seq<u16>,
    users: Seq<Seq<char>>,
    home: Seq<char>,
)
    ensures
        combinations(host, keys, ports, users, home).len() == 0 <==> (keys.len() == 0
            || ports.len() == 0 || users.len() == 0),
{
    lemma_combinations_shape(host, keys, ports, users, home);
    let a = keys.len();
    let b = ports.len();
    let d = users.len();
    assert(a * b * d == 0 <==> (a == 0 || b == 0 || d == 0)) by (nonlinear_arith)
        requires 0 <= a, 0 <= b, 0 <= d;
}

/// The models of a sequence of candidates.
pub open spec fn infos_view(v: Seq<ConnectionInfo>) -> Seq<ConnectionInfoView> {
    v.map_values(|c: ConnectionInfo| c@)
}

/// Replaces a leading `~` of `key` by `home`.
pub fn expand_home_dir(key: &str, home: &str) -> (r: String)
    ensures
        r@ == expand_home(key@, home@),
{
    let n = key.unicode_len();
    if n > 0 && key.get_char(0) == '~' {
        let rest = key.substring_char(1, n);
        let mut r = home.to_owned();
        r.append(rest);
        r
    } else {
        key.to_owned()
    }
}

/// Copies `list`, or gives the single `over` when that is non-empty.
fn effective_list(list: &Vec<String>, over: &str) -> (r: Vec<String>)
    ensures
        strings_view(r@) == effective(strings_view(list@), over@),
{
    if over.unicode_len() > 0 {
        let r = vec![over.to_owned()];
        assert(strings_view(r@) =~= seq![over@]);
        return r;
    }
    let mut r: Vec<String> = Vec::new();
    let mut i: usize = 0;
    while i < list.len()
        invariant
            i <= list@.len(),
            strings_view(r@) =~= strings_view(list@).take(i as int),
        decreases list@.len() - i,
    {
        let ghost before = r@;
        r.push(list[i].clone());
        assert(strings_view(r@) =~= strings_view(before).push(list@[i as int]@));
        i = i + 1;
    }
    assert(strings_view(list@).take(list@.len() as int) =~= strings_view(list@));
    r
}

/// Every candidate for `server`, key outermost, then port, then user. A
/// non-empty `username` or `key_file` replaces the configured users or keys;
/// ports always come from the configuration. A leading `~` of each key is
/// replaced by `home`.
pub fn generate_combos(
    server: &str,
    ssh_config: &SshConfig,
    username: &str,
    key_file: &str,
    home: &str,
) -> (r: Vec<ConnectionInfo>)
    ensures
        infos_view(r@) == combinations(
            server@,
            effective(ssh_config@.certs, key_file@),
            ssh_config@.ports,
            effective(ssh_config@.users, username@),
            home@,
        ),
{
    let users = effective_list(&ssh_config.users, username);
    let certs = effective_list(&ssh_config.certs, key_file);
    let ports = &ssh_config.ports;
    let ghost uv = strings_view(users@);
    let ghost kv = strings_view(certs@);
    let ghost pv = ports@;
    let mut combos: Vec<ConnectionInfo> = Vec::new();
    let mut k: usize = 0;
    while k < certs.len()
        invariant
            k <= kv.len(),
            uv == strings_view(users@),
            kv == strings_view(certs@),
            pv == ports@,
            infos_view(combos@) == combinations(server@, kv.take(k as int), pv, uv, home@),
        decreases kv.len() - k,
    {
        let key = expand_home_dir(certs[k].as_str(), home);
        let mut p: usize = 0;
        while p < ports.len()
            invariant
                k < kv.len(),
                p <= pv.len(),
                uv == strings_view(users@),
                kv == strings_view(certs@),
                pv == ports@,
                key@ == expand_home(kv[k as int], home@),
                infos_view(combos@) == combinations(server@, kv.take(k as int), pv, uv, home@)
                    + key_block(server@, kv[k as int], pv.take(p as int), uv, home@),
            decreases pv.len() - p,
        {
            let port = ports[p];
            let mut u: usize = 0;
            while u < users.len()
                invariant
                    k < kv.len(),
                    p < pv.len(),
                    u <= uv.len(),
                    uv == strings_view(users@),
                    kv == strings_view(certs@),
                    pv == ports@,
                    port == pv[p as int],
                    key@ == expand_home(kv[k as int], home@),
                    infos_view(combos@) == combinations(server@, kv.take(k as int), pv, uv, home@)
                        + key_block(server@, kv[k as int], pv.take(p as int), uv, home@)
                        + port_row(server@, kv[k as int], port, uv.take(u as int), home@),
                decreases uv.len() - u,
            {
                let ghost before = combos@;
                combos.push(
                    ConnectionInfo {
                        host: server.to_owned(),
                        port,
                        username: users[u].clone(),
                        private_key: key.clone(),
                    },
                );
                proof {
                    assert(infos_view(combos@) =~= infos_view(before).push(combos@.last()@));
                    assert(uv.take(u + 1) =~= uv.take(u as int).push(uv[u as int]));
                    assert(port_row(server@, kv[k as int], port, uv.take(u + 1), home@)
                        =~= port_row(server@, kv[k as int], port, uv.take(u as int), home@).push(
                        descriptor(server@, kv[k as int], port, uv[u as int], home@),
                    ));
                }
                u = u + 1;
            }
            proof {
                assert(uv.take(uv.len() as int) =~= uv);
                assert(pv.take(p + 1).drop_last() =~= pv.take(p as int));
            }
            p = p + 1;
        }
        proof {
            assert(pv.take(pv.len() as int) =~= pv);
            assert(kv.take(k + 1).drop_last() =~= kv.take(k as int));
        }
        k = k + 1;
    }
    assert(kv.take(kv.len() as int) =~= kv);
    combos
}

} // verus!
