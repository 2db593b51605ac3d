use vstd::prelude::*;
use crate::errors::LaunchError;
use crate::fsmodel::DirTree;
use crate::paths::{PathSpec, lemma_bytes_deep_view};

verus! {

/// The fixed path of the client executable inside the install
/// directory: `bin/client.exe`.
pub open spec fn client_exe_path() -> PathSpec {
    seq![
        seq![98u8, 105u8, 110u8],
        seq![99u8, 108u8, 105u8, 101u8, 110u8, 116u8, 46u8, 101u8, 120u8, 101u8],
    ]
}

/// The components of the client executable's path, relative to the
/// install directory.
pub fn client_exe_rel_path() -> (r: Vec<Vec<u8>>)
    ensures
        r.deep_view() == client_exe_path(),
{
    let bin: Vec<u8> = vec![98u8, 105u8, 110u8];
    let exe: Vec<u8> = vec![99u8, 108u8, 105u8, 101u8, 110u8, 116u8, 46u8, 101u8, 120u8, 101u8];
    proof {
        lemma_bytes_deep_view(&bin);
        lemma_bytes_deep_view(&exe);
    }
    let mut r: Vec<Vec<u8>> = Vec::new();
    r.push(bin);
    r.push(exe);
    proof {
        assert(r.deep_view() =~= client_exe_path());
    }
    r
}

/// Whether the installed client can be launched: the expected executable
/// must exist in the install directory. On `NotInstalled` the host must
/// spawn nothing.
pub fn check_launch(tree: &DirTree) -> (r: Result<(), LaunchError>)
    ensures
        r is Ok <==> tree@.files.contains_key(client_exe_path()),
        r is Err ==> r == Err::<(), LaunchError>(LaunchError::NotInstalled),
{
    let p = client_exe_rel_path();
    if tree.contains_file(&p) {
        Ok(())
    } else {
        Err(LaunchError::NotInstalled)
    }
}

/// The decimal digits of `n`, most significant first.
pub open spec fn dec_rep(n: int) -> Seq<u8>
    decreases n when n >= 0
{
    if n < 10 {
        seq![(48 + n) as u8]
    } else {
        dec_rep(n / 10).push((48 + (n % 10)) as u8)
    }
}

/// Render a port number in decimal.
pub fn render_port(port: u16) -> (r: Vec<u8>)
    ensures
        r@ == dec_rep(port as int),
{
    let mut r: Vec<u8> = Vec::new();
    let mut n: u16 = port;
    proof {
        assert(dec_rep(port as int) =~= dec_rep(n as int) + r@);
    }
    while n >= 10
        invariant
            dec_rep(port as int) == dec_rep(n as int) + r@,
        decreases n,
    {
        let d: u8 = (n % 10) as u8 + 48;
        let ghost pre = r@;
        r.insert(0, d);
        proof {
            assert(d == (48 + (n as int % 10)) as u8);
            assert(r@ =~= seq![d] + pre);
            assert(dec_rep(n as int / 10) + r@ =~= (dec_rep(n as int / 10).push(d)) + pre);
            assert(dec_rep(n as int) == dec_rep(n as int / 10).push(d));
        }
        n = n / 10;
    }
    let d0: u8 = n as u8 + 48;
    let ghost pre = r@;
    r.insert(0, d0);
    proof {
        assert(d0 == (48 + n as int) as u8);
        assert(r@ =~= seq![d0] + pre);
        assert(dec_rep(n as int) =~= seq![d0]);
        assert(dec_rep(port as int) =~= r@);
    }
    r
}

/// The fixed-name server configuration file, `server.cfg`, written in
/// the install directory before a launch.
pub open spec fn server_config_path() -> PathSpec {
    seq![seq![115u8, 101u8, 114u8, 118u8, 101u8, 114u8, 46u8, 99u8, 102u8, 103u8]]
}

/// The components of the server configuration file's path, relative to
/// the install directory.
pub fn server_config_rel_path() -> (r: Vec<Vec<u8>>)
    ensures
        r.deep_view() == server_config_path(),
{
    let name: Vec<u8> = vec![115u8, 101u8, 114u8, 118u8, 101u8, 114u8, 46u8, 99u8, 102u8, 103u8];
    proof {
        lemma_bytes_deep_view(&name);
    }
    let mut r: Vec<Vec<u8>> = Vec::new();
    r.push(name);
    proof {
        assert(r.deep_view() =~= server_config_path());
    }
    r
}

/// What the server configuration file holds for a login server: one
/// line, `host:port`.
pub open spec fn server_config_bytes(host: Seq<u8>, port: int) -> Seq<u8> {
    host + seq![58u8] + dec_rep(port) + seq![10u8]
}

/// Render the server configuration file's contents.
pub fn render_server_config(host: &Vec<u8>, port: u16) -> (r: Vec<u8>)
    ensures
        r@ == server_config_bytes(host@, port as int),
{
    let mut r = crate::paths::copy_bytes(host);
    r.push(58);
    let digits = render_port(port);
    let n: usize = digits.len();
    let mut i: usize = 0;
    proof {
        assert(r@ =~= host@ + seq![58u8] + digits@.subrange(0, 0));
    }
    while i < n
        invariant
            0 <= i <= n,
            n == digits@.len(),
            digits@ == dec_rep(port as int),
            r@ == host@ + seq![58u8] + digits@.subrange(0, i as int),
        decreases n - i,
    {
        r.push(digits[i]);
        proof {
            assert(r@ =~= host@ + seq![58u8] + digits@.subrange(0, i + 1));
        }
        i = i + 1;
    }
    r.push(10);
    proof {
        assert(digits@.subrange(0, n as int) =~= digits@);
        assert(r@ =~= server_config_bytes(host@, port as int));
    }
    r
}

/// Write, or overwrite unconditionally, the server configuration file
/// in the modelled install directory.
pub fn write_server_config(tree: &mut DirTree, host: &Vec<u8>, port: u16)
    requires
        old(tree).wf(),
    ensures
        final(tree).wf(),
        final(tree)@.files == old(tree)@.files.insert(
            server_config_path(),
            server_config_bytes(host@, port as int),
        ),
        final(tree)@.dirs == old(tree)@.dirs,
{
    let p = server_config_rel_path();
    let data = render_server_config(host, port);
    tree.set_file(p, data);
}

} // verus!
