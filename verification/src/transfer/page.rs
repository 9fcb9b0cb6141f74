//! The sharing page, drawn from what the server says at one moment, and the table
//! of transfers.

use vstd::prelude::*;
use crate::double::{hundred, product, quotient, Double};
use crate::single::{single, single_from, single_of, to_single};
use crate::text::{dec, dec_int, push_dec_int, same};
use crate::transfer::rates::{send_key, upload_key};
use crate::transfer::words::{attempts_line, attempts_text, firewall_hint, hint_text, left, left_text, link_name, plural, plural_text, status_line, status_text, when_text, Platform};

verus! {

/// A file that is offered. `size` and `kind` are what its size and its kind read,
/// `to` is the device that it is offered to, empty for all.
#[derive(Debug)]
pub struct SharedFile {
    pub id: u64,
    pub name: String,
    pub size: String,
    pub kind: String,
    pub to: String,
}

/// A paired device. `date` is what the date it was last seen reads.
#[derive(Debug)]
pub struct Device {
    pub token: String,
    pub name: String,
    pub kind: String,
    pub label: String,
    pub ip: String,
    pub pin: String,
    pub remaining: u64,
    pub busy: bool,
    pub last_seen: i64,
    pub date: String,
}

/// A file that is received. The texts are what the larger of its two counters,
/// the bytes so far and the bytes in all read.
#[derive(Debug)]
pub struct Upload {
    pub id: u64,
    pub name: String,
    pub done: u64,
    pub total: u64,
    pub state: String,
    pub size: String,
    pub done_text: String,
    pub total_text: String,
}

/// A file that is sent: its row in the table, and how far it is.
#[derive(Debug)]
pub struct Sending {
    pub row: i64,
    pub done: u64,
    pub total: u64,
}

/// What the server says at one moment.
#[derive(Debug)]
pub struct Snapshot {
    pub running: bool,
    pub url: String,
    pub pin: String,
    pub secure: bool,
    pub trust_url: String,
    pub fingerprint: String,
    pub host_url: String,
    pub inbox: String,
    pub inbox_ok: bool,
    pub iface: String,
    pub error: String,
    pub port: u16,
    pub files: Vec<SharedFile>,
    pub total_size: String,
    pub attempts: Vec<(String, u32)>,
    pub interfaces: Vec<(String, String)>,
    pub devices: Vec<Device>,
    pub uploads: Vec<Upload>,
    pub sends: Vec<Sending>,
    pub share_target: String,
    pub rev: u64,
}

/// How fast a file moves: bytes per second, and how that reads.
#[derive(Debug)]
pub struct Rate {
    pub key: String,
    pub rate: u64,
    pub text: String,
}

/// The files that move: uploads that are active, and everything that is sent.
pub open spec fn moving_view(s: Snapshot) -> Seq<(Seq<char>, nat)> {
    active_uploads(s.uploads@) + Seq::new(
        s.sends@.len(),
        |i: int| ("tx:"@ + dec_int(s.sends@[i].row as int), s.sends@[i].done as nat),
    )
}

/// The uploads that are active.
pub open spec fn active_uploads(uploads: Seq<Upload>) -> Seq<(Seq<char>, nat)>
    decreases uploads.len(),
{
    if uploads.len() == 0 {
        Seq::empty()
    } else {
        let u = uploads.last();
        let rest = active_uploads(uploads.drop_last());
        if u.state@ == "active"@ { rest.push(("up:"@ + dec(u.id as nat), u.done as nat)) } else { rest }
    }
}

/// Keys and counters as they are.
pub open spec fn counters_view(v: Seq<(String, u64)>) -> Seq<(Seq<char>, nat)> {
    Seq::new(v.len(), |i: int| (v[i].0@, v[i].1 as nat))
}

/// See [`moving_view`].
pub fn moving(s: &Snapshot) -> (r: Vec<(String, u64)>)
    ensures
        counters_view(r@) == moving_view(*s),
{
    let mut out: Vec<(String, u64)> = Vec::new();
    let mut i: usize = 0;
    assert(s.uploads@.take(0) =~= Seq::<Upload>::empty());
    assert(counters_view(out@) =~= Seq::<(Seq<char>, nat)>::empty());
    while i < s.uploads.len()
        invariant
            i <= s.uploads@.len(),
            counters_view(out@) == active_uploads(s.uploads@.take(i as int)),
        decreases s.uploads@.len() - i,
    {
        assert(s.uploads@.take(i + 1).drop_last() =~= s.uploads@.take(i as int));
        let u = &s.uploads[i];
        if same(u.state.as_str(), "active") {
            let ghost was = counters_view(out@);
            out.push((upload_key(u.id), u.done));
            assert(counters_view(out@) =~= was.push(("up:"@ + dec(u.id as nat), u.done as nat)));
        }
        i = i + 1;
    }
    assert(s.uploads@.take(i as int) =~= s.uploads@);
    let ghost base = counters_view(out@);
    let ghost all = Seq::new(
        s.sends@.len(),
        |i: int| ("tx:"@ + dec_int(s.sends@[i].row as int), s.sends@[i].done as nat),
    );
    let mut k: usize = 0;
    assert(base + all.take(0) =~= base);
    while k < s.sends.len()
        invariant
            k <= s.sends@.len(),
            all == Seq::new(
                s.sends@.len(),
                |i: int| ("tx:"@ + dec_int(s.sends@[i].row as int), s.sends@[i].done as nat),
            ),
            counters_view(out@) == base + all.take(k as int),
        decreases s.sends@.len() - k,
    {
        let ghost was = counters_view(out@);
        out.push((send_key(s.sends[k].row), s.sends[k].done));
        assert(counters_view(out@) =~= was.push(all[k as int]));
        assert(counters_view(out@) =~= base + all.take(k + 1));
        k = k + 1;
    }
    assert(all.take(k as int) =~= all);
    out
}

/// The rate under a key, nothing where the file does not move.
pub open spec fn rate_at(rates: Seq<Rate>, key: Seq<char>) -> Option<Rate>
    decreases rates.len(),
{
    if rates.len() == 0 {
        None
    } else if rates[0].key@ == key {
        Some(rates[0])
    } else {
        rate_at(rates.skip(1), key)
    }
}

/// What a rate reads, nothing where it is none.
pub open spec fn rate_text(rates: Seq<Rate>, key: Seq<char>) -> Seq<char> {
    match rate_at(rates, key) {
        Some(r) => if r.rate == 0 { Seq::empty() } else { r.text@ + "/s"@ },
        None => Seq::empty(),
    }
}

fn rate_of(rates: &Vec<Rate>, key: &str) -> (r: String)
    ensures
        r@ == rate_text(rates@, key@),
{
    let mut s = String::new();
    assert(s@ =~= Seq::<char>::empty());
    let mut i: usize = 0;
    assert(rates@.skip(0) =~= rates@);
    while i < rates.len()
        invariant
            i <= rates@.len(),
            s@ == Seq::<char>::empty(),
            rate_at(rates@, key@) == rate_at(rates@.skip(i as int), key@),
        decreases rates@.len() - i,
    {
        assert(rates@.skip(i as int).skip(1) =~= rates@.skip(i + 1));
        if same(rates[i].key.as_str(), key) {
            if rates[i].rate != 0 {
                s.append(rates[i].text.as_str());
                assert(s@ =~= rates@[i as int].text@);
                s.append("/s");
            }
            return s;
        }
        i = i + 1;
    }
    s
}

/// What a device is called: the name given to it, else its type, else what its
/// browser said.
pub open spec fn called(d: Device) -> Seq<char> {
    if d.name@.len() > 0 {
        d.name@
    } else if d.kind@.len() > 0 {
        d.kind@
    } else {
        d.label@
    }
}

/// What the device with a token is called, nothing where it was forgotten.
pub open spec fn name_at(devices: Seq<Device>, token: Seq<char>) -> Seq<char>
    decreases devices.len(),
{
    if devices.len() == 0 {
        Seq::empty()
    } else if devices[0].token@ == token {
        called(devices[0])
    } else {
        name_at(devices.skip(1), token)
    }
}

fn call(d: &Device) -> (r: String)
    ensures
        r@ == called(*d),
{
    if !d.name.as_str().is_empty() {
        d.name.clone()
    } else if !d.kind.as_str().is_empty() {
        d.kind.clone()
    } else {
        d.label.clone()
    }
}

/// See [`name_at`].
pub fn device_name(devices: &Vec<Device>, token: &str) -> (r: String)
    ensures
        r@ == name_at(devices@, token@),
{
    let mut i: usize = 0;
    assert(devices@.skip(0) =~= devices@);
    while i < devices.len()
        invariant
            i <= devices@.len(),
            name_at(devices@, token@) == name_at(devices@.skip(i as int), token@),
        decreases devices@.len() - i,
    {
        assert(devices@.skip(i as int).skip(1) =~= devices@.skip(i + 1));
        if same(devices[i].token.as_str(), token) {
            return call(&devices[i]);
        }
        i = i + 1;
    }
    let s = String::new();
    assert(s@ =~= Seq::<char>::empty());
    s
}

/// A file of the tray.
#[derive(Debug)]
pub struct TransferFile {
    pub id: u64,
    pub name: String,
    pub size: String,
    pub kind: String,
    pub to: String,
}

/// What a file of the tray reads.
#[verifier::ext_equal]
pub struct FileView {
    pub id: int,
    pub name: Seq<char>,
    pub size: Seq<char>,
    pub kind: Seq<char>,
    pub to: Seq<char>,
}

/// A device of the page. `idx` is its place in the list.
#[derive(Debug)]
pub struct TransferDevice {
    pub token: String,
    pub name: String,
    pub kind: String,
    pub label: String,
    pub ip: String,
    pub pin: String,
    pub remaining: String,
    pub busy: bool,
    pub seen: String,
    pub idx: usize,
}

/// What a device of the page reads.
#[verifier::ext_equal]
pub struct DeviceView {
    pub token: Seq<char>,
    pub name: Seq<char>,
    pub kind: Seq<char>,
    pub label: Seq<char>,
    pub ip: Seq<char>,
    pub pin: Seq<char>,
    pub remaining: Seq<char>,
    pub busy: bool,
    pub seen: Seq<char>,
    pub idx: int,
}

/// An upload of the page. `pct` is a fraction.
#[derive(Debug)]
pub struct TransferUp {
    pub id: u64,
    pub name: String,
    pub size: String,
    pub pct: Double,
    pub moved: String,
    pub rate: String,
    pub state: String,
}

/// What an upload of the page reads.
#[verifier::ext_equal]
pub struct UpView {
    pub id: int,
    pub name: Seq<char>,
    pub size: Seq<char>,
    pub pct: Double,
    pub moved: Seq<char>,
    pub rate: Seq<char>,
    pub state: Seq<char>,
}

impl View for TransferFile {
    type V = FileView;

    open spec fn view(&self) -> FileView {
        FileView { id: self.id as int, name: self.name@, size: self.size@, kind: self.kind@, to: self.to@ }
    }
}

impl View for TransferDevice {
    type V = DeviceView;

    open spec fn view(&self) -> DeviceView {
        DeviceView {
            token: self.token@,
            name: self.name@,
            kind: self.kind@,
            label: self.label@,
            ip: self.ip@,
            pin: self.pin@,
            remaining: self.remaining@,
            busy: self.busy,
            seen: self.seen@,
            idx: self.idx as int,
        }
    }
}

impl View for TransferUp {
    type V = UpView;

    open spec fn view(&self) -> UpView {
        UpView {
            id: self.id as int,
            name: self.name@,
            size: self.size@,
            pct: self.pct,
            moved: self.moved@,
            rate: self.rate@,
            state: self.state@,
        }
    }
}

/// The fraction of a whole in single precision, one at most; zero of nothing.
pub open spec fn fraction_of(done: nat, total: nat) -> Double {
    if total == 0 {
        Double { neg: false, m: 0, e: 0 }
    } else {
        let q = single(quotient(single_of(done), single_of(total)));
        if crate::double::below(single_of(1), q) { single_of(1) } else { q }
    }
}

/// See [`fraction_of`].
pub fn fraction(done: u64, total: u64) -> (r: Double)
    ensures
        r == fraction_of(done as nat, total as nat),
        r.wf(),
        !r.neg,
        -200 <= r.e <= 200,
{
    if total == 0 {
        return Double::zero();
    }
    let q = to_single(&single_from(done).div(&single_from(total)));
    let one = single_from(1);
    if one.is_below(&q) {
        one
    } else {
        q
    }
}

/// What the page shows of a file.
pub open spec fn file_view(f: SharedFile, devices: Seq<Device>) -> FileView {
    FileView {
        id: f.id as int,
        name: f.name@,
        size: f.size@,
        kind: f.kind@,
        to: if f.to@.len() == 0 { Seq::empty() } else { name_at(devices, f.to@) },
    }
}

/// What the page shows of a device.
pub open spec fn device_view(d: Device, i: int, now: int) -> DeviceView {
    DeviceView {
        token: d.token@,
        name: called(d),
        kind: d.kind@,
        label: d.label@,
        ip: d.ip@,
        pin: d.pin@,
        remaining: left_text(d.remaining as nat),
        busy: d.busy,
        seen: when_text(d.last_seen as int, now, d.date@),
        idx: i,
    }
}

/// What the page shows of an upload: how much of how much only while it moves.
pub open spec fn upload_view(u: Upload, rates: Seq<Rate>) -> UpView {
    let active = u.state@ == "active"@;
    UpView {
        id: u.id as int,
        name: u.name@,
        size: u.size@,
        pct: fraction_of(u.done as nat, u.total as nat),
        moved: if active && u.total > 0 { u.done_text@ + " / "@ + u.total_text@ } else { Seq::empty() },
        rate: if active { rate_text(rates, "up:"@ + dec(u.id as nat)) } else { Seq::empty() },
        state: u.state@,
    }
}

/// The page.
#[derive(Debug)]
pub struct Page {
    pub running: bool,
    pub url: String,
    pub pin: String,
    pub trust_url: String,
    pub fingerprint: String,
    pub host_url: String,
    pub inbox: String,
    pub inbox_ok: bool,
    pub iface: String,
    pub total: String,
    pub status: String,
    pub hint: String,
    pub port: u16,
    pub attempts: String,
    pub share_target: String,
    pub share_target_name: String,
    pub files: Vec<TransferFile>,
    pub ifaces: Vec<(String, String)>,
    pub devices: Vec<TransferDevice>,
    pub uploads: Vec<TransferUp>,
}

/// What the page reads.
#[verifier::ext_equal]
pub struct PageView {
    pub running: bool,
    pub url: Seq<char>,
    pub pin: Seq<char>,
    pub trust_url: Seq<char>,
    pub fingerprint: Seq<char>,
    pub host_url: Seq<char>,
    pub inbox: Seq<char>,
    pub inbox_ok: bool,
    pub iface: Seq<char>,
    pub total: Seq<char>,
    pub status: Seq<char>,
    pub hint: Seq<char>,
    pub port: int,
    pub attempts: Seq<char>,
    pub share_target: Seq<char>,
    pub share_target_name: Seq<char>,
    pub files: Seq<FileView>,
    pub ifaces: Seq<(Seq<char>, Seq<char>)>,
    pub devices: Seq<DeviceView>,
    pub uploads: Seq<UpView>,
}

/// Pairs of texts as they read.
pub open spec fn pairs_view(v: Seq<(String, String)>) -> Seq<(Seq<char>, Seq<char>)> {
    Seq::new(v.len(), |i: int| (v[i].0@, v[i].1@))
}

impl View for Page {
    type V = PageView;

    open spec fn view(&self) -> PageView {
        PageView {
            running: self.running,
            url: self.url@,
            pin: self.pin@,
            trust_url: self.trust_url@,
            fingerprint: self.fingerprint@,
            host_url: self.host_url@,
            inbox: self.inbox@,
            inbox_ok: self.inbox_ok,
            iface: self.iface@,
            total: self.total@,
            status: self.status@,
            hint: self.hint@,
            port: self.port as int,
            attempts: self.attempts@,
            share_target: self.share_target@,
            share_target_name: self.share_target_name@,
            files: Seq::new(self.files@.len(), |i: int| self.files@[i]@),
            ifaces: pairs_view(self.ifaces@),
            devices: Seq::new(self.devices@.len(), |i: int| self.devices@[i]@),
            uploads: Seq::new(self.uploads@.len(), |i: int| self.uploads@[i]@),
        }
    }
}

/// What belongs to the machine and the service rather than to the moment: the
/// kind of machine, the port that a start asks for, and how many wrong PINs lock
/// an address out.
#[derive(Clone, Copy, Debug)]
pub struct Setup {
    pub platform: Platform,
    pub usual_port: u16,
    pub limit: u32,
}

/// The page of a moment.
pub open spec fn page_view(s: Snapshot, rates: Seq<Rate>, setup: Setup, now: int) -> PageView {
    PageView {
        running: s.running,
        url: s.url@,
        pin: s.pin@,
        trust_url: if s.secure { s.trust_url@ } else { Seq::empty() },
        fingerprint: s.fingerprint@,
        host_url: s.host_url@,
        inbox: s.inbox@,
        inbox_ok: s.inbox_ok,
        iface: s.iface@,
        total: if s.files@.len() == 0 {
            Seq::empty()
        } else {
            plural_text(s.files@.len(), "file"@) + " · "@ + s.total_size@
        },
        status: status_text(s.error@, s.running, s.inbox_ok, s.inbox@, s.url@, setup.platform),
        hint: if s.running {
            hint_text(setup.platform, s.port as nat, link_name(s.interfaces@, s.iface@))
        } else {
            Seq::empty()
        },
        port: if s.port == 0 { setup.usual_port as int } else { s.port as int },
        attempts: attempts_text(s.attempts@, setup.limit as int),
        share_target: s.share_target@,
        share_target_name: name_at(s.devices@, s.share_target@),
        files: Seq::new(s.files@.len(), |i: int| file_view(s.files@[i], s.devices@)),
        ifaces: pairs_view(s.interfaces@),
        devices: Seq::new(s.devices@.len(), |i: int| device_view(s.devices@[i], i, now)),
        uploads: Seq::new(s.uploads@.len(), |i: int| upload_view(s.uploads@[i], rates)),
    }
}

fn empty() -> (r: String)
    ensures
        r@ == Seq::<char>::empty(),
{
    let s = String::new();
    assert(s@ =~= Seq::<char>::empty());
    s
}

fn files_of(s: &Snapshot) -> (r: Vec<TransferFile>)
    ensures
        Seq::new(r@.len(), |i: int| r@[i]@) == Seq::new(s.files@.len(), |i: int| file_view(s.files@[i], s.devices@)),
{
    let mut out: Vec<TransferFile> = Vec::new();
    let mut i: usize = 0;
    while i < s.files.len()
        invariant
            i <= s.files@.len(),
            out@.len() == i,
            forall|j: int| 0 <= j < i ==> (#[trigger] out@[j])@ == file_view(s.files@[j], s.devices@),
        decreases s.files@.len() - i,
    {
        let f = &s.files[i];
        let to = if f.to.as_str().is_empty() { empty() } else { device_name(&s.devices, f.to.as_str()) };
        out.push(TransferFile { id: f.id, name: f.name.clone(), size: f.size.clone(), kind: f.kind.clone(), to });
        i = i + 1;
    }
    assert(Seq::new(out@.len(), |i: int| out@[i]@) =~= Seq::new(
        s.files@.len(),
        |i: int| file_view(s.files@[i], s.devices@),
    ));
    out
}

/// Every device was seen at a moment whose distance from now can be said.
pub open spec fn seen_near(s: Snapshot, now: int) -> bool {
    forall|i: int| 0 <= i < s.devices@.len() ==> i64::MIN <= now - (#[trigger] s.devices@[i]).last_seen <= i64::MAX
}

fn devices_of(s: &Snapshot, now: i64) -> (r: Vec<TransferDevice>)
    requires
        seen_near(*s, now as int),
    ensures
        Seq::new(r@.len(), |i: int| r@[i]@) == Seq::new(
            s.devices@.len(),
            |i: int| device_view(s.devices@[i], i, now as int),
        ),
{
    let mut out: Vec<TransferDevice> = Vec::new();
    let mut i: usize = 0;
    while i < s.devices.len()
        invariant
            i <= s.devices@.len(),
            seen_near(*s, now as int),
            out@.len() == i,
            forall|j: int| 0 <= j < i ==> (#[trigger] out@[j])@ == device_view(s.devices@[j], j, now as int),
        decreases s.devices@.len() - i,
    {
        let d = &s.devices[i];
        out.push(
            TransferDevice {
                token: d.token.clone(),
                name: call(d),
                kind: d.kind.clone(),
                label: d.label.clone(),
                ip: d.ip.clone(),
                pin: d.pin.clone(),
                remaining: left(d.remaining),
                busy: d.busy,
                seen: crate::transfer::words::when(d.last_seen, now, d.date.as_str()),
                idx: i,
            },
        );
        i = i + 1;
    }
    assert(Seq::new(out@.len(), |i: int| out@[i]@) =~= Seq::new(
        s.devices@.len(),
        |i: int| device_view(s.devices@[i], i, now as int),
    ));
    out
}

fn uploads_of(s: &Snapshot, rates: &Vec<Rate>) -> (r: Vec<TransferUp>)
    ensures
        Seq::new(r@.len(), |i: int| r@[i]@) == Seq::new(s.uploads@.len(), |i: int| upload_view(s.uploads@[i], rates@)),
{
    let mut out: Vec<TransferUp> = Vec::new();
    let mut i: usize = 0;
    while i < s.uploads.len()
        invariant
            i <= s.uploads@.len(),
            out@.len() == i,
            forall|j: int| 0 <= j < i ==> (#[trigger] out@[j])@ == upload_view(s.uploads@[j], rates@),
        decreases s.uploads@.len() - i,
    {
        let u = &s.uploads[i];
        let active = same(u.state.as_str(), "active");
        let moved = if active && u.total > 0 {
            let mut t = u.done_text.clone();
            t.append(" / ");
            t.append(u.total_text.as_str());
            t
        } else {
            empty()
        };
        let rate = if active { rate_of(rates, upload_key(u.id).as_str()) } else { empty() };
        out.push(
            TransferUp {
                id: u.id,
                name: u.name.clone(),
                size: u.size.clone(),
                pct: fraction(u.done, u.total),
                moved,
                rate,
                state: u.state.clone(),
            },
        );
        i = i + 1;
    }
    assert(Seq::new(out@.len(), |i: int| out@[i]@) =~= Seq::new(
        s.uploads@.len(),
        |i: int| upload_view(s.uploads@[i], rates@),
    ));
    out
}

fn links_of(v: &Vec<(String, String)>) -> (r: Vec<(String, String)>)
    ensures
        pairs_view(r@) == pairs_view(v@),
{
    let mut out: Vec<(String, String)> = Vec::new();
    let mut i: usize = 0;
    while i < v.len()
        invariant
            i <= v@.len(),
            out@.len() == i,
            forall|j: int| 0 <= j < i ==> (#[trigger] out@[j]).0@ == v@[j].0@ && out@[j].1@ == v@[j].1@,
        decreases v@.len() - i,
    {
        out.push((v[i].0.clone(), v[i].1.clone()));
        i = i + 1;
    }
    assert(pairs_view(out@) =~= pairs_view(v@));
    out
}

fn page_of(s: &Snapshot, rates: &Vec<Rate>, setup: &Setup, now: i64) -> (r: Page)
    requires
        seen_near(*s, now as int),
    ensures
        r@ == page_view(*s, rates@, *setup, now as int),
{
    let total = if s.files.len() == 0 {
        empty()
    } else {
        let mut t = plural(s.files.len() as u64, "file");
        t.append(" · ");
        t.append(s.total_size.as_str());
        t
    };
    Page {
        running: s.running,
        url: s.url.clone(),
        pin: s.pin.clone(),
        trust_url: if s.secure { s.trust_url.clone() } else { empty() },
        fingerprint: s.fingerprint.clone(),
        host_url: s.host_url.clone(),
        inbox: s.inbox.clone(),
        inbox_ok: s.inbox_ok,
        iface: s.iface.clone(),
        total,
        status: status_line(
            s.error.as_str(),
            s.running,
            s.inbox_ok,
            s.inbox.as_str(),
            s.url.as_str(),
            setup.platform,
        ),
        hint: firewall_hint(s.running, setup.platform, s.port, &s.interfaces, s.iface.as_str()),
        port: if s.port == 0 { setup.usual_port } else { s.port },
        attempts: attempts_line(&s.attempts, setup.limit),
        share_target: s.share_target.clone(),
        share_target_name: device_name(&s.devices, s.share_target.as_str()),
        files: files_of(s),
        ifaces: links_of(&s.interfaces),
        devices: devices_of(s, now),
        uploads: uploads_of(s, rates),
    }
}

/// What is to be done about the code on the page.
#[derive(Clone, Copy, Debug, PartialEq, Eq, Structural)]
pub enum QrAct {
    /// Draw a new one for the address.
    Redraw,
    /// Leave it.
    Keep,
    /// Take it away.
    Blank,
}

/// What the page remembers from look to look: the address that the code was drawn
/// for, the ledger's revision, and how many uploads were done.
#[derive(Debug)]
pub struct Seen {
    pub drawn: String,
    pub rev: u64,
    pub done: u64,
}

/// What a look leads to besides the page.
#[derive(Clone, Copy, Debug, PartialEq, Eq, Structural)]
pub struct Effects {
    /// What is to be done about the code.
    pub qr: QrAct,
    /// The table of transfers is to be read again.
    pub reload: bool,
    /// Something landed in the inbox: the library is to be looked through.
    pub rescan: bool,
}

/// How many uploads are done.
pub open spec fn uploads_done(uploads: Seq<Upload>) -> nat
    decreases uploads.len(),
{
    if uploads.len() == 0 {
        0
    } else {
        uploads_done(uploads.drop_last()) + (if uploads.last().state@ == "done"@ { 1nat } else { 0nat })
    }
}

/// What a look leads to. The code is drawn anew when the address changed or the
/// key behind it is no longer live; the table is read again when the ledger moved;
/// the library is looked through when more uploads are done than before.
pub open spec fn effects_of(s: Snapshot, live: bool, drawn: Seq<char>, rev: u64, done: nat) -> Effects {
    Effects {
        qr: if !s.running {
            QrAct::Blank
        } else if drawn != s.url@ || !live {
            QrAct::Redraw
        } else {
            QrAct::Keep
        },
        reload: s.running && rev != s.rev,
        rescan: uploads_done(s.uploads@) > done,
    }
}

fn count_done(uploads: &Vec<Upload>) -> (n: usize)
    ensures
        n == uploads_done(uploads@),
        n <= uploads@.len(),
{
    let mut n: usize = 0;
    let mut i: usize = 0;
    assert(uploads@.take(0) =~= Seq::<Upload>::empty());
    while i < uploads.len()
        invariant
            i <= uploads@.len(),
            n <= i,
            n == uploads_done(uploads@.take(i as int)),
        decreases uploads@.len() - i,
    {
        assert(uploads@.take(i + 1).drop_last() =~= uploads@.take(i as int));
        if same(uploads[i].state.as_str(), "done") {
            n = n + 1;
        }
        i = i + 1;
    }
    assert(uploads@.take(i as int) =~= uploads@);
    n
}

impl Seen {
    /// Nothing seen yet.
    pub fn nothing() -> (r: Seen)
        ensures
            r.drawn@.len() == 0,
            r.rev == u64::MAX,
            r.done == 0,
    {
        Seen { drawn: String::new(), rev: u64::MAX, done: 0 }
    }

    /// Forgets the ledger and the uploads, as a stop does.
    pub fn stopped(&mut self)
        ensures
            final(self).rev == u64::MAX,
            final(self).done == 0,
            final(self).drawn@ == old(self).drawn@,
    {
        self.rev = u64::MAX;
        self.done = 0;
    }

    /// The code was drawn for an address.
    pub fn drew(&mut self, url: &str)
        ensures
            final(self).drawn@ == url@,
            final(self).rev == old(self).rev,
            final(self).done == old(self).done,
    {
        self.drawn = url.to_owned();
    }
}

/// Draws the page from one look at the server, and says what else is to be done.
/// `live` says that the key behind the code can still be used.
pub fn refresh(
    s: &Snapshot,
    rates: &Vec<Rate>,
    setup: &Setup,
    live: bool,
    seen: &mut Seen,
    now: i64,
) -> (r: (Page, Effects))
    requires
        seen_near(*s, now as int),
    ensures
        r.0@ == page_view(*s, rates@, *setup, now as int),
        r.1 == effects_of(*s, live, old(seen).drawn@, old(seen).rev, old(seen).done as nat),
        final(seen).drawn@ == (if s.running { old(seen).drawn@ } else { Seq::<char>::empty() }),
        final(seen).rev == (if r.1.reload { s.rev } else { old(seen).rev }),
        final(seen).done == uploads_done(s.uploads@),
{
    let page = page_of(s, rates, setup, now);
    let qr = if !s.running {
        seen.drawn = empty();
        QrAct::Blank
    } else if !same(seen.drawn.as_str(), s.url.as_str()) || !live {
        QrAct::Redraw
    } else {
        QrAct::Keep
    };
    let reload = s.running && seen.rev != s.rev;
    if reload {
        seen.rev = s.rev;
    }
    let done: u64 = count_done(&s.uploads) as u64;
    let rescan = done > seen.done;
    seen.done = done;
    (page, Effects { qr, reload, rescan })
}

/// Once the table was read again and the uploads were counted, a second look at
/// the same moment asks for neither.
pub proof fn law_a_second_look_is_quiet(s: Snapshot, live: bool, drawn: Seq<char>)
    ensures
        !effects_of(s, live, drawn, s.rev, uploads_done(s.uploads@)).reload,
        !effects_of(s, live, drawn, s.rev, uploads_done(s.uploads@)).rescan,
{
}

/// A row of the table of transfers. `pct` and `progress` say how far a file is
/// that is being sent.
#[derive(Debug)]
pub struct TransferRow {
    pub id: i64,
    pub direction: String,
    pub name: String,
    pub path: String,
    pub size: String,
    pub peer: String,
    pub status: String,
    pub stamp: String,
    pub kind: String,
    pub kindlabel: String,
    pub missing: bool,
    pub pct: Double,
    pub progress: String,
}

/// An entry of the ledger, with what its size, its kind and its date read and
/// whether its file is there.
#[derive(Debug)]
pub struct Entry {
    pub id: i64,
    pub direction: String,
    pub name: String,
    pub path: Option<String>,
    pub size: String,
    pub peer: String,
    pub status: String,
    pub at: i64,
    pub date: String,
    pub kind: String,
    pub kindlabel: String,
    pub there: bool,
}

/// What a row of the table reads.
#[verifier::ext_equal]
pub struct RowView {
    pub id: int,
    pub direction: Seq<char>,
    pub name: Seq<char>,
    pub path: Seq<char>,
    pub size: Seq<char>,
    pub peer: Seq<char>,
    pub status: Seq<char>,
    pub stamp: Seq<char>,
    pub kind: Seq<char>,
    pub kindlabel: Seq<char>,
    pub missing: bool,
    pub pct: Double,
    pub progress: Seq<char>,
}

impl View for TransferRow {
    type V = RowView;

    open spec fn view(&self) -> RowView {
        RowView {
            id: self.id as int,
            direction: self.direction@,
            name: self.name@,
            path: self.path@,
            size: self.size@,
            peer: self.peer@,
            status: self.status@,
            stamp: self.stamp@,
            kind: self.kind@,
            kindlabel: self.kindlabel@,
            missing: self.missing,
            pct: self.pct,
            progress: self.progress@,
        }
    }
}

/// The rows as they read.
pub open spec fn rows_view(v: Seq<TransferRow>) -> Seq<RowView> {
    Seq::new(v.len(), |i: int| v[i]@)
}

/// What the table says of an entry: one whose file went is greyed, not hidden.
pub open spec fn entry_row(e: Entry, now: int) -> RowView {
    let path = match e.path {
        Some(p) => p@,
        None => Seq::empty(),
    };
    RowView {
        id: e.id as int,
        direction: e.direction@,
        name: e.name@,
        path,
        size: e.size@,
        peer: e.peer@,
        status: e.status@,
        stamp: when_text(e.at as int, now, e.date@),
        kind: e.kind@,
        kindlabel: e.kindlabel@,
        missing: path.len() > 0 && !e.there,
        pct: Double { neg: false, m: 0, e: 0 },
        progress: Seq::empty(),
    }
}

/// One page of the table.
pub fn history_rows(entries: &Vec<Entry>, now: i64) -> (r: Vec<TransferRow>)
    requires
        forall|i: int| 0 <= i < entries@.len() ==> i64::MIN <= now - (#[trigger] entries@[i]).at <= i64::MAX,
    ensures
        rows_view(r@) == Seq::new(entries@.len(), |i: int| entry_row(entries@[i], now as int)),
{
    let mut out: Vec<TransferRow> = Vec::new();
    let mut i: usize = 0;
    while i < entries.len()
        invariant
            i <= entries@.len(),
            out@.len() == i,
            forall|j: int| 0 <= j < entries@.len() ==> i64::MIN <= now - (#[trigger] entries@[j]).at <= i64::MAX,
            forall|j: int| 0 <= j < i ==> (#[trigger] out@[j])@ == entry_row(entries@[j], now as int),
        decreases entries@.len() - i,
    {
        let e = &entries[i];
        let path = match &e.path {
            Some(p) => p.clone(),
            None => empty(),
        };
        let missing = !path.as_str().is_empty() && !e.there;
        out.push(
            TransferRow {
                id: e.id,
                direction: e.direction.clone(),
                name: e.name.clone(),
                path,
                size: e.size.clone(),
                peer: e.peer.clone(),
                status: e.status.clone(),
                stamp: crate::transfer::words::when(e.at, now, e.date.as_str()),
                kind: e.kind.clone(),
                kindlabel: e.kindlabel.clone(),
                missing,
                pct: Double::zero(),
                progress: empty(),
            },
        );
        i = i + 1;
    }
    assert(rows_view(out@) =~= Seq::new(entries@.len(), |i: int| entry_row(entries@[i], now as int)));
    out
}

/// The file that is sent on a row of the table.
pub open spec fn sending_at(sends: Seq<Sending>, row: int) -> Option<Sending>
    decreases sends.len(),
{
    if sends.len() == 0 {
        None
    } else if sends[0].row == row {
        Some(sends[0])
    } else {
        sending_at(sends.skip(1), row)
    }
}

/// How far a row's file is, and how that reads: nothing of a row that is not
/// being sent, or is no longer on the wire.
pub open spec fn send_progress(status: Seq<char>, row: int, sends: Seq<Sending>, rates: Seq<Rate>) -> (Double, Seq<char>) {
    let none = (Double { neg: false, m: 0, e: 0 }, Seq::<char>::empty());
    if status != "sending"@ {
        none
    } else {
        match sending_at(sends, row) {
            Some(s) => if s.total > 0 {
                let pct = fraction_of(s.done as nat, s.total as nat);
                let label = dec_int(single(product(pct, hundred())).rounded()) + "%"@;
                let rate = rate_text(rates, "tx:"@ + dec_int(row));
                (pct, if rate.len() > 0 { label + " · "@ + rate } else { label })
            } else {
                none
            },
            None => none,
        }
    }
}

/// A row with its progress filled in.
pub open spec fn patched(r: RowView, sends: Seq<Sending>, rates: Seq<Rate>) -> RowView {
    let p = send_progress(r.status, r.id, sends, rates);
    RowView { pct: p.0, progress: p.1, ..r }
}

fn progress_of(status: &str, row: i64, sends: &Vec<Sending>, rates: &Vec<Rate>) -> (r: (Double, String))
    ensures
        (r.0, r.1@) == send_progress(status@, row as int, sends@, rates@),
{
    let none = empty();
    if !same(status, "sending") {
        return (Double::zero(), none);
    }
    let mut i: usize = 0;
    assert(sends@.skip(0) =~= sends@);
    while i < sends.len()
        invariant
            i <= sends@.len(),
            status@ == "sending"@,
            none@ == Seq::<char>::empty(),
            sending_at(sends@, row as int) == sending_at(sends@.skip(i as int), row as int),
        decreases sends@.len() - i,
    {
        assert(sends@.skip(i as int).skip(1) =~= sends@.skip(i + 1));
        if sends[i].row == row {
            if sends[i].total == 0 {
                return (Double::zero(), none);
            }
            let pct = fraction(sends[i].done, sends[i].total);
            let whole: i64 = to_single(&pct.mul(&Double::hundred())).to_rounded();
            let mut s = String::new();
            push_dec_int(&mut s, whole);
            assert(s@ =~= dec_int(whole as int));
            s.append("%");
            let rate = rate_of(rates, send_key(row).as_str());
            if !rate.as_str().is_empty() {
                s.append(" · ");
                s.append(rate.as_str());
            }
            return (pct, s);
        }
        i = i + 1;
    }
    (Double::zero(), none)
}

/// Fills in how far every row of the table is that is being sent, and blanks it on
/// every row that is not.
pub fn patch_send_progress(rows: &mut Vec<TransferRow>, sends: &Vec<Sending>, rates: &Vec<Rate>)
    ensures
        rows_view(final(rows)@) == Seq::new(
            old(rows)@.len(),
            |i: int| patched(old(rows)@[i]@, sends@, rates@),
        ),
{
    let ghost was = rows@;
    let mut i: usize = 0;
    while i < rows.len()
        invariant
            i <= rows@.len(),
            rows@.len() == was.len(),
            was == old(rows)@,
            forall|j: int| 0 <= j < i ==> (#[trigger] rows@[j])@ == patched(was[j]@, sends@, rates@),
            forall|j: int| i <= j < rows@.len() ==> #[trigger] rows@[j] == was[j],
        decreases rows@.len() - i,
    {
        let row = &rows[i];
        let (pct, progress) = progress_of(row.status.as_str(), row.id, sends, rates);
        let new = TransferRow {
            id: row.id,
            direction: row.direction.clone(),
            name: row.name.clone(),
            path: row.path.clone(),
            size: row.size.clone(),
            peer: row.peer.clone(),
            status: row.status.clone(),
            stamp: row.stamp.clone(),
            kind: row.kind.clone(),
            kindlabel: row.kindlabel.clone(),
            missing: row.missing,
            pct,
            progress,
        };
        assert(new@ == patched(was[i as int]@, sends@, rates@));
        rows.set(i, new);
        i = i + 1;
    }
    assert(rows_view(rows@) =~= Seq::new(was.len(), |i: int| patched(was[i]@, sends@, rates@)));
}

/// How often the page is looked at, in milliseconds: often while it is open,
/// seldom while the server runs behind another section, never otherwise.
pub fn tick_every(open: bool, running: bool) -> (r: Option<u64>)
    ensures
        r == (if open { Some(600u64) } else if running { Some(3_000u64) } else { None }),
{
    if open {
        Some(600)
    } else if running {
        Some(3_000)
    } else {
        None
    }
}

/// Whether a send that failed may be offered again: it is a send, its file is
/// known and there, and the server runs.
pub fn may_retry(direction: &str, path: &str, there: bool, running: bool) -> (r: bool)
    ensures
        r == (direction@ == "out"@ && path@.len() > 0 && there && running),
{
    same(direction, "out") && !path.is_empty() && there && running
}

/// The folder that uploads go to: the one in the settings, else the usual one.
pub fn inbox_choice<'a>(stored: &'a str, usual: &'a str) -> (r: &'a str)
    ensures
        r@ == (if crate::text::trim(stored@).len() == 0 { usual@ } else { stored@ }),
{
    if crate::text::trimmed(stored).as_str().is_empty() {
        usual
    } else {
        stored
    }
}

/// The uploads that move are those that are active, in order.
pub proof fn law_active_uploads_move(uploads: Seq<Upload>)
    ensures
        active_uploads(uploads) == uploads.filter(|x: Upload| x.state@ == "active"@).map_values(|x: Upload| ("up:"@ + dec(x.id as nat), x.done as nat)),
    decreases uploads.len(),
{
    reveal(Seq::filter);
    let p = |x: Upload| x.state@ == "active"@;
    let wanted = uploads.filter(|x: Upload| x.state@ == "active"@).map_values(|x: Upload| ("up:"@ + dec(x.id as nat), x.done as nat));
    if uploads.len() > 0 {
        let front = uploads.drop_last();
        law_active_uploads_move(front);
        let kept = front.filter(p);
        assert(uploads.filter(p) == (if p(uploads.last()) { kept.push(uploads.last()) } else { kept }));
        assert(front.filter(|x: Upload| x.state@ == "active"@).map_values(|x: Upload| ("up:"@ + dec(x.id as nat), x.done as nat)) == active_uploads(front));
    }
    assert(active_uploads(uploads) =~= wanted);
}

/// As many uploads are done as say so.
pub proof fn law_done_uploads_are_counted(uploads: Seq<Upload>)
    ensures
        uploads_done(uploads) == uploads.filter(|x: Upload| x.state@ == "done"@).len(),
    decreases uploads.len(),
{
    reveal(Seq::filter);
    let p = |x: Upload| x.state@ == "done"@;
    if uploads.len() > 0 {
        let front = uploads.drop_last();
        law_done_uploads_are_counted(front);
        let kept = front.filter(p);
        assert(uploads.filter(p) == (if p(uploads.last()) { kept.push(uploads.last()) } else { kept }));
    }
}

/// The rate of a file is the first under its key.
pub proof fn law_a_rate_is_found_by_its_key(rates: Seq<Rate>, key: Seq<char>)
    ensures
        (exists|i: int|
            0 <= i < rates.len() && (#[trigger] rates[i]).key@ == key && rate_at(rates, key) == Some(rates[i]) && forall|j: int|
                0 <= j < i ==> !((#[trigger] rates[j]).key@ == key)) || ((forall|i: int| 0 <= i < rates.len() ==> !((#[trigger] rates[i]).key@ == key)) && rate_at(rates, key) is None),
    decreases rates.len(),
{
    if rates.len() > 0 {
        if rates[0].key@ == key {
            assert(rates[0].key@ == key && rate_at(rates, key) == Some(rates[0]));
        } else {
            let rest = rates.skip(1);
            law_a_rate_is_found_by_its_key(rest, key);
            assert forall|i: int| 0 <= i < rest.len() implies (#[trigger] rest[i]) == rates[i + 1] by {}
            if exists|i: int|
            0 <= i < rest.len() && (#[trigger] rest[i]).key@ == key && rate_at(rest, key) == Some(rest[i]) && forall|j: int|
                0 <= j < i ==> !((#[trigger] rest[j]).key@ == key) {
                let i = choose|i: int|
                    0 <= i < rest.len() && (#[trigger] rest[i]).key@ == key && rate_at(rest, key) == Some(rest[i]) && forall|j: int|
                        0 <= j < i ==> !((#[trigger] rest[j]).key@ == key);
                assert(rates[i + 1].key@ == key && rate_at(rates, key) == Some(rates[i + 1]));
                assert forall|j: int| 0 <= j < i + 1 implies !((#[trigger] rates[j]).key@ == key) by {
                    if j > 0 {
                        assert(!(rest[j - 1].key@ == key));
                    }
                }
            } else {
                assert forall|i: int| 0 <= i < rates.len() implies !((#[trigger] rates[i]).key@ == key) by {
                    if i > 0 {
                        assert(!(rest[i - 1].key@ == key));
                    }
                }
            }
        }
    }
}

/// A device is found by its token; one that was forgotten is called nothing.
pub proof fn law_a_device_is_called_by_its_token(devices: Seq<Device>, token: Seq<char>)
    ensures
        (exists|i: int|
            0 <= i < devices.len() && (#[trigger] devices[i]).token@ == token && name_at(devices, token) == called(devices[i]) && forall|j: int|
                0 <= j < i ==> !((#[trigger] devices[j]).token@ == token)) || ((forall|i: int| 0 <= i < devices.len() ==> !((#[trigger] devices[i]).token@ == token)) && name_at(devices, token) == Seq::<char>::empty()),
    decreases devices.len(),
{
    if devices.len() > 0 {
        if devices[0].token@ == token {
            assert(devices[0].token@ == token && name_at(devices, token) == called(devices[0]));
        } else {
            let rest = devices.skip(1);
            law_a_device_is_called_by_its_token(rest, token);
            assert forall|i: int| 0 <= i < rest.len() implies (#[trigger] rest[i]) == devices[i + 1] by {}
            if exists|i: int|
            0 <= i < rest.len() && (#[trigger] rest[i]).token@ == token && name_at(rest, token) == called(rest[i]) && forall|j: int|
                0 <= j < i ==> !((#[trigger] rest[j]).token@ == token) {
                let i = choose|i: int|
                    0 <= i < rest.len() && (#[trigger] rest[i]).token@ == token && name_at(rest, token) == called(rest[i]) && forall|j: int|
                        0 <= j < i ==> !((#[trigger] rest[j]).token@ == token);
                assert(devices[i + 1].token@ == token && name_at(devices, token) == called(devices[i + 1]));
                assert forall|j: int| 0 <= j < i + 1 implies !((#[trigger] devices[j]).token@ == token) by {
                    if j > 0 {
                        assert(!(rest[j - 1].token@ == token));
                    }
                }
            } else {
                assert forall|i: int| 0 <= i < devices.len() implies !((#[trigger] devices[i]).token@ == token) by {
                    if i > 0 {
                        assert(!(rest[i - 1].token@ == token));
                    }
                }
            }
        }
    }
}

/// A sending is the first on its row.
pub proof fn law_a_sending_is_found_by_its_row(sends: Seq<Sending>, row: int)
    ensures
        (exists|i: int|
            0 <= i < sends.len() && (#[trigger] sends[i]).row == row && sending_at(sends, row) == Some(sends[i]) && forall|j: int|
                0 <= j < i ==> !((#[trigger] sends[j]).row == row)) || ((forall|i: int| 0 <= i < sends.len() ==> !((#[trigger] sends[i]).row == row)) && sending_at(sends, row) is None),
    decreases sends.len(),
{
    if sends.len() > 0 {
        if sends[0].row == row {
            assert(sends[0].row == row && sending_at(sends, row) == Some(sends[0]));
        } else {
            let rest = sends.skip(1);
            law_a_sending_is_found_by_its_row(rest, row);
            assert forall|i: int| 0 <= i < rest.len() implies (#[trigger] rest[i]) == sends[i + 1] by {}
            if exists|i: int|
            0 <= i < rest.len() && (#[trigger] rest[i]).row == row && sending_at(rest, row) == Some(rest[i]) && forall|j: int|
                0 <= j < i ==> !((#[trigger] rest[j]).row == row) {
                let i = choose|i: int|
                    0 <= i < rest.len() && (#[trigger] rest[i]).row == row && sending_at(rest, row) == Some(rest[i]) && forall|j: int|
                        0 <= j < i ==> !((#[trigger] rest[j]).row == row);
                assert(sends[i + 1].row == row && sending_at(sends, row) == Some(sends[i + 1]));
                assert forall|j: int| 0 <= j < i + 1 implies !((#[trigger] sends[j]).row == row) by {
                    if j > 0 {
                        assert(!(rest[j - 1].row == row));
                    }
                }
            } else {
                assert forall|i: int| 0 <= i < sends.len() implies !((#[trigger] sends[i]).row == row) by {
                    if i > 0 {
                        assert(!(rest[i - 1].row == row));
                    }
                }
            }
        }
    }
}


/// A device is called by the name given to it, else by its type, else by what its browser
/// said.
pub proof fn law_a_name_that_was_given_goes_first(d: Device)
    ensures
        d.name@.len() > 0 ==> called(d) == d.name@,
        d.name@.len() == 0 && d.kind@.len() > 0 ==> called(d) == d.kind@,
        d.name@.len() == 0 && d.kind@.len() == 0 ==> called(d) == d.label@,
{
}

/// A fraction is never more than the whole, and of nothing it is nothing.
pub proof fn law_no_fraction_is_more_than_the_whole(done: nat, total: nat)
    ensures
        fraction_of(done, 0).m == 0,
        fraction_of(done, total) == single_of(1) || !crate::double::below(single_of(1), fraction_of(done, total)) || total == 0,
{
}

/// The code is shown only while something is shared, and drawn anew exactly when the address
/// changed or the key behind it no longer lives; the table is read again when the ledger
/// moved; the library is looked through when more uploads are done than before.
pub proof fn law_a_look_does_what_changed(s: Snapshot, live: bool, drawn: Seq<char>, rev: u64, done: nat)
    ensures
        ({
            let e = effects_of(s, live, drawn, rev, done);
            let ended = s.uploads@.filter(|x: Upload| x.state@ == "done"@).len();
            &&& (e.qr == QrAct::Blank) == !s.running
            &&& (e.qr == QrAct::Redraw) == (s.running && (drawn != s.url@ || !live))
            &&& (e.qr == QrAct::Keep) == (s.running && drawn == s.url@ && live)
            &&& e.reload == (s.running && rev != s.rev)
            &&& e.rescan == (ended > done)
        }),
{
    law_done_uploads_are_counted(s.uploads@);
}

/// A row says what its entry says, and is greyed exactly where the file it names is gone.
pub proof fn law_a_row_is_greyed_where_its_file_is_gone(e: Entry, now: int)
    ensures
        ({
            let r = entry_row(e, now);
            &&& r.missing == (!e.there && (e.path matches Some(p) && p@.len() > 0))
            &&& r.id == e.id && r.direction == e.direction@ && r.name == e.name@ && r.size == e.size@ && r.peer == e.peer@
            &&& r.status == e.status@ && r.kind == e.kind@ && r.kindlabel == e.kindlabel@
            &&& e.path matches Some(p) ==> r.path == p@
            &&& r.stamp == when_text(e.at as int, now, e.date@)
        }),
{
}

/// Progress is filled in where the row is being sent and its file is on the wire, and only
/// there; nothing else of a row changes.
pub proof fn law_only_rows_that_are_sent_have_progress(r: RowView, sends: Seq<Sending>, rates: Seq<Rate>)
    ensures
        ({
            let p = patched(r, sends, rates);
            &&& p == (RowView { pct: p.pct, progress: p.progress, ..r })
            &&& r.status != "sending"@ ==> p.progress.len() == 0 && p.pct.m == 0
            &&& (forall|i: int| 0 <= i < sends.len() ==> (#[trigger] sends[i]).row != r.id) ==> p.progress.len() == 0 && p.pct.m == 0
            &&& r.status == "sending"@ ==> (sending_at(sends, r.id) matches Some(s) ==> (s.total > 0 ==> p.pct == fraction_of(
                s.done as nat,
                s.total as nat,
            )))
        }),
{
    law_a_sending_is_found_by_its_row(sends, r.id);
}

/// Every file, device and upload of a moment has its row, in order; a device says how long
/// it has left and when it was seen, an upload how much of how much while it moves.
pub proof fn law_the_page_shows_everything_once(s: Snapshot, rates: Seq<Rate>, setup: Setup, now: int)
    ensures
        ({
            let v = page_view(s, rates, setup, now);
            &&& v.files.len() == s.files@.len() && v.devices.len() == s.devices@.len() && v.uploads.len() == s.uploads@.len()
            &&& forall|i: int|
                0 <= i < s.files@.len() ==> (#[trigger] v.files[i]).id == s.files@[i].id && v.files[i].name == s.files@[i].name@ && v.files[i].size
                    == s.files@[i].size@ && (s.files@[i].to@.len() > 0 ==> v.files[i].to == name_at(s.devices@, s.files@[i].to@))
            &&& forall|i: int|
                0 <= i < s.devices@.len() ==> (#[trigger] v.devices[i]).token == s.devices@[i].token@ && v.devices[i].idx == i && v.devices[i].busy
                    == s.devices@[i].busy && v.devices[i].remaining == left_text(s.devices@[i].remaining as nat) && v.devices[i].seen
                    == when_text(s.devices@[i].last_seen as int, now, s.devices@[i].date@) && v.devices[i].ip == s.devices@[i].ip@
            &&& forall|i: int|
                0 <= i < s.uploads@.len() ==> {
                    let (u, up) = (s.uploads@[i], #[trigger] v.uploads[i]);
                    &&& up.id == u.id && up.name == u.name@ && up.state == u.state@
                    &&& u.state@ == "active"@ && u.total > 0 ==> up.moved == u.done_text@ + " / "@ + u.total_text@
                    &&& u.state@ != "active"@ ==> up.moved.len() == 0 && up.rate.len() == 0
                    &&& up.pct == fraction_of(u.done as nat, u.total as nat)
                }
            &&& s.secure ==> v.trust_url == s.trust_url@
            &&& !s.secure ==> v.trust_url.len() == 0
            &&& s.port != 0 ==> v.port == s.port
            &&& s.port == 0 ==> v.port == setup.usual_port
        }),
{
}

/// What moves are the active uploads and behind them everything that is sent, each under its
/// own key; a rate is said while it is above nothing.
pub proof fn law_everything_that_is_sent_moves(s: Snapshot, rates: Seq<Rate>, key: Seq<char>, i: int)
    requires
        0 <= i < s.sends@.len(),
    ensures
        moving_view(s).len() == active_uploads(s.uploads@).len() + s.sends@.len(),
        moving_view(s).take(active_uploads(s.uploads@).len() as int) == active_uploads(s.uploads@),
        moving_view(s)[active_uploads(s.uploads@).len() + i] == ("tx:"@ + dec_int(s.sends@[i].row as int), s.sends@[i].done as nat),
        rate_at(rates, key) matches Some(r) ==> (r.rate > 0 ==> rate_text(rates, key) == r.text@ + "/s"@) && (r.rate == 0 ==> rate_text(rates, key).len() == 0),
        rate_at(rates, key) is None ==> rate_text(rates, key).len() == 0,
{
    assert(moving_view(s).take(active_uploads(s.uploads@).len() as int) =~= active_uploads(s.uploads@));
}

/// A row that is sent says its per cent, and how fast it goes where that is known.
pub proof fn law_a_row_that_is_sent_says_how_far_it_is(row: int, sends: Seq<Sending>, rates: Seq<Rate>)
    ensures
        sending_at(sends, row) matches Some(s) ==> (s.total > 0 ==> ({
            let pct = fraction_of(s.done as nat, s.total as nat);
            let label = dec_int(single(product(pct, hundred())).rounded()) + "%"@;
            let rate = rate_text(rates, "tx:"@ + dec_int(row));
            &&& rate.len() == 0 ==> send_progress("sending"@, row, sends, rates) == (pct, label)
            &&& rate.len() > 0 ==> send_progress("sending"@, row, sends, rates) == (pct, label + " · "@ + rate)
        })),
{
}

} // verus!
