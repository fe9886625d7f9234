use vstd::prelude::*;
use crate::config::{ConnectionInfo, ConnectionInfoView};

verus! {

/// Seconds the SSH client may spend establishing the transport connection.
pub const CONNECT_TIMEOUT_SECS: u16 = 5;

/// The decimal digit for `d`, for `d < 10`.
pub open spec fn digit_char(d: nat) -> char {
    "0123456789"@[d as int]
}

/// The decimal notation of `n`, without leading zeros.
pub open spec fn decimal(n: nat) -> Seq<char>
    decreases n,
{
    if n < 10 {
        seq![digit_char(n)]
    } else {
        decimal(n / 10).push(digit_char(n % 10))
    }
}

/// The command line a person would type to open the session that `c` describes.
pub open spec fn connection_line(c: ConnectionInfoView) -> Seq<char> {
    "ssh -i "@ + c.private_key + " "@ + c.username + "@"@ + c.host + " -p"@ + decimal(
        c.port as nat,
    )
}

/// The SSH client's arguments for one attempt: key, port and destination;
/// batch mode with no password prompts and no host-key question; a bounded
/// connect time; verbose diagnostics; and the remote command `exit`, so
/// that nothing but authentication happens.
pub open spec fn ssh_argument_list(c: ConnectionInfoView, timeout_secs: u16) -> Seq<Seq<char>> {
    seq![
        "-i"@,
        c.private_key,
        "-p"@,
        decimal(c.port as nat),
        c.username + "@"@ + c.host,
        "-o"@,
        "BatchMode=yes"@,
        "-o"@,
        "StrictHostKeyChecking=no"@,
        "-o"@,
        "NumberOfPasswordPrompts=0"@,
        "-o"@,
        "ConnectTimeout="@ + decimal(timeout_secs as nat),
        "-v"@,
        "exit"@,
    ]
}

fn digit_str(d: u16) -> (r: &'static str)
    requires
        d < 10,
    ensures
        r@ == seq![digit_char(d as nat)],
{
    proof {
        reveal_strlit("0123456789");
    }
    let r = "0123456789".substring_char(d as usize, d as usize + 1);
    assert(r@ =~= seq![digit_char(d as nat)]);
    r
}

/// The decimal notation of `n`.
pub fn decimal_string(n: u16) -> (r: String)
    ensures
        r@ == decimal(n as nat),
{
    let mut acc = String::new();
    let mut m: u16 = n;
    while m >= 10
        invariant
            decimal(n as nat) == decimal(m as nat) + acc@,
        decreases m,
    {
        let mut s = digit_str(m % 10).to_owned();
        s.append(acc.as_str());
        assert(decimal(m as nat) == decimal((m / 10) as nat).push(digit_char((m % 10) as nat)));
        assert(decimal(m as nat) + acc@ =~= decimal((m / 10) as nat) + s@);
        acc = s;
        m = m / 10;
    }
    let mut r = digit_str(m).to_owned();
    r.append(acc.as_str());
    r
}

/// The command line for the session that `info` describes, as reported on success.
pub fn connection_string(info: &ConnectionInfo) -> (r: String)
    ensures
        r@ == connection_line(info@),
{
    let mut r = "ssh -i ".to_owned();
    r.append(info.private_key.as_str());
    r.append(" ");
    r.append(info.username.as_str());
    r.append("@");
    r.append(info.host.as_str());
    r.append(" -p");
    let port = decimal_string(info.port);
    r.append(port.as_str());
    r
}

/// The SSH client's arguments for an attempt on `info`.
pub fn ssh_arguments(info: &ConnectionInfo, timeout_secs: u16) -> (r: Vec<String>)
    ensures
        r@.map_values(|s: String| s@) == ssh_argument_list(info@, timeout_secs),
{
    let mut dest = info.username.clone();
    dest.append("@");
    dest.append(info.host.as_str());
    let mut timeout = "ConnectTimeout=".to_owned();
    let secs = decimal_string(timeout_secs);
    timeout.append(secs.as_str());
    let r = vec![
        "-i".to_owned(),
        info.private_key.clone(),
        "-p".to_owned(),
        decimal_string(info.port),
        dest,
        "-o".to_owned(),
        "BatchMode=yes".to_owned(),
        "-o".to_owned(),
        "StrictHostKeyChecking=no".to_owned(),
        "-o".to_owned(),
        "NumberOfPasswordPrompts=0".to_owned(),
        "-o".to_owned(),
        timeout,
        "-v".to_owned(),
        "exit".to_owned(),
    ];
    assert(r@.map_values(|s: String| s@) =~= ssh_argument_list(info@, timeout_secs));
    r
}

} // verus!
