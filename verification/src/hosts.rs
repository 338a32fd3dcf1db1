//! The hosts snapshot: the fixed table of names with their addresses that
//! overrides every rule.

use crate::addr::IpAddress;
use crate::hosts_file::texts;
use vstd::prelude::*;

verus! {

/// One entry of the hosts table.
#[derive(Clone, Debug, PartialEq, Eq)]
pub struct HostEntry {
    pub domain: String,
    pub ip: IpAddress,
}

/// What a `HostEntry` holds, with the name as a sequence of characters.
pub struct HostEntryView {
    pub domain: Seq<char>,
    pub ip: IpAddress,
}

impl View for HostEntry {
    type V = HostEntryView;

    open spec fn view(&self) -> HostEntryView {
        HostEntryView { domain: self.domain@, ip: self.ip }
    }
}

/// The address of the first entry for `domain`, if the table has one.
pub open spec fn host_ip(entries: Seq<HostEntryView>, domain: Seq<char>) -> Option<IpAddress>
    decreases entries.len(),
{
    if entries.len() == 0 {
        None
    } else if entries[0].domain == domain {
        Some(entries[0].ip)
    } else {
        host_ip(entries.drop_first(), domain)
    }
}

/// The entries that a line of a hosts file gives: one for each of its
/// names, all with the line's address.
pub open spec fn line_entries(ip: IpAddress, names: Seq<Seq<char>>) -> Seq<HostEntryView> {
    names.map_values(|d: Seq<char>| HostEntryView { domain: d, ip })
}

/// The hosts table. Once the resolver has it, it does not change.
#[derive(Clone, Debug, PartialEq, Eq)]
pub struct Hosts {
    entries: Vec<HostEntry>,
}

impl View for Hosts {
    type V = Seq<HostEntryView>;

    closed spec fn view(&self) -> Seq<HostEntryView> {
        self.entries@.map_values(|e: HostEntry| e@)
    }
}

impl Hosts {
    /// The table with these entries; of two entries for one name the
    /// earlier counts.
    pub fn new(entries: Vec<HostEntry>) -> (h: Hosts)
        ensures
            h@ == entries@.map_values(|e: HostEntry| e@),
    {
        Hosts { entries }
    }

    /// Appends the entries of one line of a hosts file: `ip` for each of
    /// `names`, in their order.
    pub fn add_line(&mut self, ip: IpAddress, names: &Vec<String>)
        ensures
            final(self)@ == old(self)@ + line_entries(ip, texts(names@)),
    {
        let n: usize = names.len();
        let mut i: usize = 0;
        let ghost added = line_entries(ip, texts(names@));
        assert(old(self)@ + added.take(0) =~= old(self)@);
        while i < n
            invariant
                i <= n,
                n == names.len(),
                added == line_entries(ip, texts(names@)),
                self@ == old(self)@ + added.take(i as int),
            decreases n - i,
        {
            let ghost prior = self@;
            self.entries.push(HostEntry { domain: names[i].clone(), ip });
            assert(self@ =~= prior.push(HostEntryView { domain: names@[i as int]@, ip }));
            assert(added[i as int] == HostEntryView { domain: names@[i as int]@, ip });
            assert(added.take(i + 1) =~= added.take(i as int).push(added[i as int]));
            assert(self@ =~= old(self)@ + added.take(i + 1));
            i = i + 1;
        }
        assert(added.take(n as int) =~= added);
    }

    /// The address that the table gives for `domain`, if it has an entry.
    pub fn get(&self, domain: &str) -> (r: Option<IpAddress>)
        ensures
            r == host_ip(self@, domain@),
    {
        let name = domain.to_owned();
        let ghost all = self@;
        let n: usize = self.entries.len();
        let mut i: usize = 0;
        assert(all.skip(0) =~= all);
        while i < n
            invariant
                i <= n,
                n == self.entries.len(),
                all == self@,
                name@ == domain@,
                host_ip(all, domain@) == host_ip(all.skip(i as int), domain@),
            decreases n - i,
        {
            assert(all.skip(i as int)[0] == self.entries[i as int]@);
            assert(all.skip(i as int).drop_first() =~= all.skip(i + 1));
            if self.entries[i].domain == name {
                return Some(self.entries[i].ip);
            }
            i = i + 1;
        }
        None
    }
}

} // verus!
