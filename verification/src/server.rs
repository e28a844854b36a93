//! The listener, and what it says about connections.
use crate::address::IpAddr;
use crate::ip2region::{self, Ip2Region, IpLocation};
use crate::language::{self, Language};
use crate::security::BlockReason;
use crate::text::same_text;
use vstd::prelude::*;
use vstd::string::*;

verus! {

/// How many connections are served at once.
#[derive(Debug)]
pub struct ConnectionLimiter {
    pub active: usize,
}

impl Default for ConnectionLimiter {
    fn default() -> (limiter: Self)
        ensures
            limiter.active == 0,
    {
        ConnectionLimiter { active: 0 }
    }
}

impl ConnectionLimiter {
    /// Admits a connection, if fewer than `maximum` are being served.
    pub fn try_acquire(&mut self, maximum: usize) -> (admitted: bool)
        ensures
            admitted == (old(self).active < maximum),
            admitted ==> final(self).active == old(self).active + 1,
            !admitted ==> final(self).active == old(self).active,
            final(self).active == count_after(
                old(self).active as int,
                Traffic::Arrival(maximum),
            ),
    {
        if self.active >= maximum {
            return false;
        }
        self.active = self.active + 1;
        true
    }

    /// Notes that a connection has ended.
    pub fn release(&mut self)
        requires
            old(self).active > 0,
        ensures
            final(self).active == old(self).active - 1,
            final(self).active == count_after(old(self).active as int, Traffic::Departure),
    {
        self.active = self.active - 1;
    }
}

/// What happens to the count of connections.
pub enum Traffic {
    Arrival(usize),
    Departure,
}

/// The count after something happened.
pub open spec fn count_after(active: int, event: Traffic) -> int {
    match event {
        Traffic::Arrival(maximum) => if active < maximum {
            active + 1
        } else {
            active
        },
        Traffic::Departure => active - 1,
    }
}

/// The count after several things happened.
pub open spec fn count_after_all(active: int, events: Seq<Traffic>) -> int
    decreases events.len(),
{
    if events.len() == 0 {
        active
    } else {
        count_after(count_after_all(active, events.drop_last()), events.last())
    }
}

/// However connections come and go, no more are served at once than the highest limit that
/// was in force allows.
pub proof fn lemma_limit_is_kept(active: int, events: Seq<Traffic>, limit: int)
    requires
        active <= limit,
        forall|i: int|
            0 <= i < events.len() ==> match #[trigger] events[i] {
                Traffic::Arrival(maximum) => maximum <= limit,
                Traffic::Departure => true,
            },
    ensures
        count_after_all(active, events) <= limit,
    decreases events.len(),
{
    if events.len() > 0 {
        let rest = events.drop_last();
        lemma_limit_is_kept(active, rest, limit);
    }
}

/// The address that the gateway listens on.
#[derive(Debug)]
pub struct Listener {
    pub bound: String,
}

impl Listener {
    /// The address to listen on from now on, if it has changed.
    pub fn on_config(&self, bind: &str) -> (rebind: Option<String>)
        ensures
            match rebind {
                Some(address) => address@ == bind@ && bind@ != self.bound@,
                None => bind@ == self.bound@,
            },
    {
        if same_text(bind, self.bound.as_str()) {
            None
        } else {
            Some(bind.to_owned())
        }
    }

    /// Notes what came of listening on another address: where it failed, the gateway keeps
    /// listening on the previous one.
    pub fn on_rebound(&mut self, bind: String, done: bool)
        ensures
            final(self).bound@ == if done {
                bind@
            } else {
                old(self).bound@
            },
    {
        if done {
            self.bound = bind;
        }
    }
}

/// What is known of an address, and a line for the log if the lookup failed: nothing more is
/// known of the address then. `shown` is the address as text, and `found` the region text
/// that its database answered.
pub fn lookup_location(
    databases: &Ip2Region,
    language: &Language,
    ip: IpAddr,
    shown: &str,
    found: Result<String, String>,
) -> (outcome: (IpLocation, Option<String>))
    ensures
        match ip2region::located(databases.database(ip), ip, shown@, crate::url::outcome_texts(found)) {
            Ok(place) => outcome.0@ == place && outcome.1 is None,
            Err(_) => outcome.0@ == ip2region::unknown_place(ip) && crate::text::text_of(outcome.1) == Some(
                language.rendered("log.ip2region_failed"@, Seq::empty()),
            ),
        },
{
    match databases.lookup(ip, shown, found) {
        Ok(location) => (location, None),
        Err(_) => {
            let values: [(&str, &str); 0] = [];
            let text = language.render("log.ip2region_failed", &values);
            (IpLocation::empty(ip), Some(text))
        },
    }
}

/// The line for the log about a connection that was turned away.
pub fn security_block_line(language: &Language, reason: BlockReason, ip: &str) -> (text: String)
    ensures
        text@ == language.rendered(
            "log.security_blocked"@,
            seq![("kind"@, reason.name()), ("ip"@, ip@)],
        ),
{
    let values = [("kind", reason.label()), ("ip", ip)];
    let text = language.render("log.security_blocked", &values);
    assert(language::value_texts(values@) =~= seq![("kind"@, reason.name()), ("ip"@, ip@)]);
    text
}

/// What is known of an address is what the database of its family says; nothing, if there is
/// none, it says nothing, or the lookup failed. Only a failed lookup gives a line for the log.
pub proof fn lemma_address_is_looked_up_in_its_family(
    databases: Ip2Region,
    language: Language,
    ip: IpAddr,
    shown: &str,
    found: Result<String, String>,
    outcome: (IpLocation, Option<String>),
)
    requires
        call_ensures(lookup_location, (&databases, &language, ip, shown, found), outcome),
    ensures
        outcome.0.ip == ip,
        ({
            let there = if ip is V4 {
                databases.v4 is Some
            } else {
                databases.v6 is Some
            };
            &&& there && found is Ok && found->Ok_0@.len() > 0
                ==> outcome.0@ == ip2region::place_of(
                ip,
                found->Ok_0@,
            )
            &&& !there || found is Err || found->Ok_0@.len() == 0 ==> outcome.0.country_code is None
                && outcome.0.country_name is None && outcome.0.province is None && outcome.0.city
                is None && outcome.0.isp is None
            &&& outcome.1 is Some <==> there && found is Err
        }),
{
}

/// The gateway listens anew exactly when the address has changed, and then on the new one.
pub proof fn lemma_listener_follows_the_configuration(
    listener: Listener,
    bind: &str,
    rebind: Option<String>,
)
    requires
        call_ensures(Listener::on_config, (&listener, bind), rebind),
    ensures
        rebind is Some <==> bind@ != listener.bound@,
        rebind is Some ==> rebind->0@ == bind@,
{
}

/// Of connections that come one after the other, as many are admitted as there is room for:
/// the count rises by one for each until it reaches the limit, and stays there.
pub proof fn lemma_arrivals_fill_the_room(active: int, maximum: usize, events: Seq<Traffic>)
    requires
        active <= maximum,
        forall|i: int| 0 <= i < events.len() ==> #[trigger] events[i] == Traffic::Arrival(maximum),
    ensures
        count_after_all(active, events) == if active + events.len() <= maximum {
            active + events.len()
        } else {
            maximum as int
        },
    decreases events.len(),
{
    if events.len() > 0 {
        let rest = events.drop_last();
        assert forall|i: int| 0 <= i < rest.len() implies #[trigger] rest[i] == Traffic::Arrival(
            maximum,
        ) by {
            assert(rest[i] == events[i]);
        }
        lemma_arrivals_fill_the_room(active, maximum, rest);
        assert(events[events.len() - 1] == Traffic::Arrival(maximum));
    }
}

/// A connection that has ended makes room for another.
pub proof fn lemma_departure_makes_room(active: int, maximum: usize)
    requires
        0 < active <= maximum,
    ensures
        count_after_all(active, seq![Traffic::Departure, Traffic::Arrival(maximum)]) == active,
        count_after_all(active, seq![Traffic::Departure]) == active - 1,
{
    reveal_with_fuel(count_after_all, 3);
    let both = seq![Traffic::Departure, Traffic::Arrival(maximum)];
    assert(both.drop_last() =~= seq![Traffic::Departure]);
    assert(seq![Traffic::Departure].drop_last() =~= Seq::empty());
}

} // verus!
