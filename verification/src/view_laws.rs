//! What the views show: each value as it is, in place, and nothing of it left out.

use vstd::prelude::*;
use vstd::std_specs::cmp::PartialEqSpec;
use crate::bringup::{LinkAction, LinkActionView};
use crate::ccsds::TlmPacket;
use crate::evs::{event_view, Event};
use crate::fsw::{doubles_equal, FswState};
use crate::quiesce::{set_to, texts};
use crate::run::{contents, packet_views, Action, ActionView, Report, ReportView};
use crate::session::event_views;
use crate::streams::ref_views;
use crate::transcript::{views, Entry};
use crate::transport::{Reaction, ReactionView};

verus! {

/// A list shows each of its items, in place.
pub proof fn lists_show_each_item_in_place(
    datagrams: Seq<Vec<u8>>,
    strings: Seq<String>,
    packets: Seq<TlmPacket>,
    entries: Seq<Entry>,
    borrowed: Seq<&Entry>,
    events: Seq<Event>,
    i: int,
)
    ensures
        contents(datagrams).len() == datagrams.len(),
        texts(strings).len() == strings.len(),
        packet_views(packets).len() == packets.len(),
        views(entries).len() == entries.len(),
        ref_views(borrowed).len() == borrowed.len(),
        event_views(events).len() == events.len(),
        0 <= i < datagrams.len() ==> contents(datagrams)[i] == datagrams[i]@,
        0 <= i < strings.len() ==> texts(strings)[i] == strings[i]@,
        0 <= i < packets.len() ==> packet_views(packets)[i] == packets[i]@,
        0 <= i < entries.len() ==> views(entries)[i] == entries[i]@,
        0 <= i < borrowed.len() ==> ref_views(borrowed)[i] == borrowed[i]@,
        0 <= i < events.len() ==> event_views(events)[i] == events[i]@,
{
}

/// A packet shows its fields.
pub proof fn a_packet_shows_its_fields(p: TlmPacket)
    ensures
        p@.msg_id == p.msg_id,
        p@.seq == p.seq,
        p@.secs == p.secs,
        p@.subsecs == p.subsecs,
        p@.len == p.len,
        p@.payload == p.payload@,
{
}

/// An entry shows its fields.
pub proof fn an_entry_shows_its_fields(e: Entry)
    ensures
        e@.msg_id == e.msg_id,
        e@.seq_delta == e.seq_delta,
        e@.rel_time == e.rel_time,
        e@.len == e.len,
        e@.payload == e.payload@,
{
}

/// An event shows its fields.
pub proof fn an_event_shows_its_fields(e: Event)
    ensures
        e@.app == e.app@,
        e@.event_id == e.event_id,
        e@.severity == e.severity,
        e@.text == e.text@,
        event_view(Some(e)) == Some(e@),
        event_view(None) is None,
{
}

/// A variable shows its text where it is set.
pub proof fn a_variable_shows_its_text(v: &str)
    ensures
        set_to(Some(v)) == Some(v@),
        set_to(None) is None,
{
}

/// What is to be done, and what came of it, shows what it is about.
pub proof fn actions_and_reports_show_what_they_are_about(
    a: Action,
    r: Report,
    l: LinkAction,
    c: Reaction,
)
    ensures
        a matches Action::Uplink { command } ==> a@ == (ActionView::Uplink { command: command@ }),
        a matches Action::Tick { advance } ==> a@ == (ActionView::Tick { advance }),
        a is BootTick <==> a@ is BootTick,
        a is AwaitPort <==> a@ is AwaitPort,
        a is CheckEnabled <==> a@ is CheckEnabled,
        a is Quiet <==> a@ is Quiet,
        a is Settle <==> a@ is Settle,
        a is Finish <==> a@ is Finish,
        r matches Report::Booting { operational, expired } ==> r@ == (ReportView::Booting {
            operational,
            expired,
        }),
        r matches Report::CommandPort { bound } ==> r@ == (ReportView::CommandPort { bound }),
        r is Sent <==> r@ is Sent,
        r matches Report::Enabled { acknowledged } ==> r@ == (ReportView::Enabled {
            acknowledged,
        }),
        r matches Report::Drained { datagrams } ==> r@ == (ReportView::Drained {
            datagrams: contents(datagrams@),
        }),
        l is AwaitPort <==> l@ is AwaitPort,
        l matches LinkAction::Enable { command } ==> l@ == (LinkActionView::Enable {
            command: command@,
        }),
        l matches LinkAction::Subscribe { command } ==> l@ == (LinkActionView::Subscribe {
            command: command@,
        }),
        l is Fly <==> l@ is Fly,
        c is Carry <==> c@ is Carry,
        c matches Reaction::Uplink { command } ==> c@ == (ReactionView::Uplink {
            command: command@,
        }),
        c is Stop <==> c@ is Stop,
{
}

/// Two reports on the vehicle are equal exactly if every number of one equals that of
/// the other.
pub proof fn reports_are_equal_in_every_number(f: FswState, g: FswState)
    ensures
        f.eq_spec(&g) <==> {
            &&& doubles_equal(f.alt_km, g.alt_km)
            &&& doubles_equal(f.lat_deg, g.lat_deg)
            &&& doubles_equal(f.lon_deg, g.lon_deg)
            &&& doubles_equal(f.roll, g.roll)
            &&& f.rx_count == g.rx_count
            &&& f.rx_err_count == g.rx_err_count
        },
{
}

/// Two entries are equal exactly if they say the same.
pub proof fn entries_are_equal_if_they_say_the_same(e: Entry, f: Entry)
    ensures
        e.eq_spec(&f) <==> {
            &&& e.msg_id == f.msg_id
            &&& e.seq_delta == f.seq_delta
            &&& e.rel_time == f.rel_time
            &&& e.len == f.len
            &&& e.payload@ == f.payload@
        },
{
}

} // verus!
