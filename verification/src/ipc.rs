//! Where the agent listens for its clients, and which of them stay connected.
use crate::paths::{join, joined, Environment, Platform};
use vstd::prelude::*;

verus! {

/// Name of the pipe that the agent listens on under Windows.
pub const PIPE_NAME: &'static str = "\\\\.\\pipe\\MediaMountAgent";

/// The container that the agent shares with its extensions on macOS, below the user's home.
pub open spec fn group_container() -> Seq<char> {
    "Library/Group Containers/5Z4S9VHV56.group.com.unionfiles.mediamount-tray"@
}

/// The directory in which the agent keeps its socket, and the path of the socket. Extensions of
/// macOS only reach the container that they share with the agent.
pub open spec fn socket_place(env: Environment) -> (Option<Seq<char>>, Seq<char>) {
    let p = env.platform;
    let in_dir = |dir: Seq<char>| (Some(dir), joined(p, dir, "mediamount-agent.sock"@));
    match (p, env.home, env.runtime_dir) {
        (Platform::Macos, Some(home), _) => in_dir(joined(p, home@, group_container())),
        (_, _, Some(run)) => in_dir(joined(p, run@, "ufb"@)),
        _ => (None, "/tmp/ufb-mediamount-agent.sock"@),
    }
}

/// The directory that has to be there for the socket, if any, and the path of the socket.
pub fn socket_path(env: &Environment) -> (r: (Option<String>, String))
    ensures
        r.0 matches Some(d) ==> socket_place(*env).0 == Some(d@),
        r.0 is None ==> socket_place(*env).0 is None,
        r.1@ == socket_place(*env).1,
{
    let macos = match env.platform {
        Platform::Macos => true,
        _ => false,
    };
    if macos {
        match &env.home {
            Some(home) => {
                let dir = join(
                    env.platform,
                    home.as_str(),
                    "Library/Group Containers/5Z4S9VHV56.group.com.unionfiles.mediamount-tray",
                );
                let sock = join(env.platform, dir.as_str(), "mediamount-agent.sock");
                return (Some(dir), sock);
            },
            None => {},
        }
    }
    match &env.runtime_dir {
        Some(run) => {
            let dir = join(env.platform, run.as_str(), "ufb");
            let sock = join(env.platform, dir.as_str(), "mediamount-agent.sock");
            (Some(dir), sock)
        },
        None => (None, "/tmp/ufb-mediamount-agent.sock".to_owned()),
    }
}

/// The path of the socket, for clients.
pub fn get_socket_path(env: &Environment) -> (out: String)
    ensures
        out@ == socket_place(*env).1,
{
    let (_, sock) = socket_path(env);
    sock
}

/// The clients that a message reached, in order.
pub open spec fn reached<T>(clients: Seq<T>, ok: Seq<bool>) -> Seq<T>
    decreases clients.len(),
{
    if clients.len() == 0 {
        Seq::empty()
    } else {
        let front = reached(clients.drop_last(), ok);
        if ok[clients.len() - 1] {
            front.push(clients.last())
        } else {
            front
        }
    }
}

/// Drops the clients that a message did not reach; the others stay in their order.
pub fn drop_unreached<T>(clients: &mut Vec<T>, ok: &Vec<bool>)
    requires
        old(clients)@.len() == ok@.len(),
    ensures
        final(clients)@ == reached(old(clients)@, ok@),
{
    let ghost c0 = clients@;
    let mut i: usize = clients.len();
    let ghost mut tail: Seq<T> = Seq::empty();
    assert(c0.take(i as int) =~= c0);
    assert(clients@ =~= c0.take(i as int) + tail);
    proof {
        lemma_reached_split(c0, ok@, i as int, tail);
    }
    while i > 0
        invariant
            i <= c0.len(),
            c0.len() == ok@.len(),
            clients@ == c0.take(i as int) + tail,
            reached(c0, ok@) == reached(c0.take(i as int), ok@) + tail,
        decreases i,
    {
        i -= 1;
        assert(c0.take(i + 1).drop_last() =~= c0.take(i as int));
        assert(c0.take(i + 1).last() == c0[i as int]);
        if !ok[i] {
            let _gone = clients.remove(i);
            assert(clients@ =~= c0.take(i as int) + tail);
        } else {
            proof {
                let more = seq![c0[i as int]] + tail;
                assert(reached(c0, ok@) =~= reached(c0.take(i as int), ok@) + more);
                assert(clients@ =~= c0.take(i as int) + more);
                tail = more;
            }
        }
    }
    assert(c0.take(0) =~= Seq::empty());
    assert(clients@ =~= tail);
    assert(reached(c0, ok@) =~= tail);
}

proof fn lemma_reached_split<T>(clients: Seq<T>, ok: Seq<bool>, n: int, tail: Seq<T>)
    requires
        n == clients.len(),
        tail.len() == 0,
    ensures
        reached(clients, ok) == reached(clients.take(n), ok) + tail,
{
    assert(clients.take(n) =~= clients);
    assert(reached(clients, ok) =~= reached(clients, ok) + tail);
}

/// A message that reached everyone disconnects nobody.
pub proof fn law_reached_clients_stay<T>(clients: Seq<T>, ok: Seq<bool>)
    requires
        clients.len() <= ok.len(),
        forall|i: int| 0 <= i < clients.len() ==> ok[i],
    ensures
        reached(clients, ok) == clients,
    decreases clients.len(),
{
    if clients.len() > 0 {
        law_reached_clients_stay(clients.drop_last(), ok);
        assert(clients =~= clients.drop_last().push(clients.last()));
    } else {
        assert(reached(clients, ok) =~= clients);
    }
}

/// The file whose content shows that a share is alive.
pub fn healthcheck_path(platform: Platform, mount_path: &str, healthcheck_file: &str) -> (out:
    String)
    ensures
        out@ == joined(platform, mount_path@, healthcheck_file@),
{
    join(platform, mount_path, healthcheck_file)
}

/// Whether a share is alive: its directory is there and its health file can be read, both in time.
pub fn probe_passed(in_time: bool, occupied: bool, readable: bool) -> (r: bool)
    ensures
        r == (in_time && occupied && readable),
{
    if !in_time {
        return false;
    }
    if !occupied {
        return false;
    }
    readable
}

/// A client stays exactly where the message reached it.
pub proof fn law_only_unreached_clients_go<T>(clients: Seq<T>, ok: Seq<bool>, c: T, reached_it: bool)
    requires
        ok.len() == clients.len(),
    ensures
        reached(clients.push(c), ok.push(reached_it)) == if reached_it {
            reached(clients, ok).push(c)
        } else {
            reached(clients, ok)
        },
{
    assert(clients.push(c).drop_last() =~= clients);
    lemma_reached_ignores(clients, ok, reached_it);
}

proof fn lemma_reached_ignores<T>(clients: Seq<T>, ok: Seq<bool>, more: bool)
    requires
        clients.len() <= ok.len(),
    ensures
        reached(clients, ok.push(more)) == reached(clients, ok),
    decreases clients.len(),
{
    if clients.len() > 0 {
        lemma_reached_ignores(clients.drop_last(), ok, more);
        assert(ok.push(more)[clients.len() - 1] == ok[clients.len() - 1]);
    }
}

/// The socket lies in its directory where there is one: in the container that extensions reach on
/// macOS, and in the directory for such files elsewhere.
pub proof fn law_sockets_lie_where_clients_look(env: Environment)
    ensures
        socket_place(env).0 matches Some(d) ==> socket_place(env).1 == joined(
            env.platform,
            d,
            "mediamount-agent.sock"@,
        ),
        socket_place(env).0 is None ==> socket_place(env).1 == "/tmp/ufb-mediamount-agent.sock"@,
        env.platform is Macos ==> (env.home matches Some(h) ==> socket_place(env).0 == Some(
            joined(env.platform, h@, group_container()),
        )),
        !(env.platform is Macos && env.home is Some) ==> (env.runtime_dir matches Some(r)
            ==> socket_place(env).0 == Some(joined(env.platform, r@, "ufb"@))),
{
}

/// A share is alive only where everything was found, and in time.
pub proof fn law_every_probe_has_to_pass(in_time: bool, occupied: bool, readable: bool, r: bool)
    requires
        call_ensures(probe_passed, (in_time, occupied, readable), r),
    ensures
        !in_time ==> !r,
        !occupied ==> !r,
        !readable ==> !r,
        in_time && occupied && readable ==> r,
{
}

} // verus!
