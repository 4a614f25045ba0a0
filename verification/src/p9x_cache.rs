//! Per-container, per-endpoint percentile thresholds, refreshed from the
//! verdict service and evicted once a container goes untouched past a
//! timeout.  Values are nanosecond thresholds; a value of zero means "no
//! percentile known".

use vstd::prelude::*;

use crate::sampler::SampleTrace;

verus! {

/// One endpoint's percentile threshold.
pub struct UrlP9x {
    pub url: String,
    pub value: u64,
}

#[verifier::ext_equal]
pub ghost struct UrlP9xView {
    pub url: Seq<char>,
    pub value: u64,
}

impl View for UrlP9x {
    type V = UrlP9xView;

    open spec fn view(&self) -> UrlP9xView {
        UrlP9xView { url: self.url@, value: self.value }
    }
}

impl DeepView for UrlP9x {
    type V = UrlP9xView;

    open spec fn deep_view(&self) -> UrlP9xView {
        self.view()
    }
}

/// One container's thresholds and the time they were last touched.
pub struct PrometheusContainerP9x {
    pub update_time: u64,
    pub p9x_values: Vec<UrlP9x>,
}

#[verifier::ext_equal]
pub ghost struct ContainerP9xView {
    pub update_time: u64,
    pub p9x_values: Seq<UrlP9xView>,
}

impl View for PrometheusContainerP9x {
    type V = ContainerP9xView;

    open spec fn view(&self) -> ContainerP9xView {
        ContainerP9xView { update_time: self.update_time, p9x_values: self.p9x_values.deep_view() }
    }
}

impl DeepView for PrometheusContainerP9x {
    type V = ContainerP9xView;

    open spec fn deep_view(&self) -> ContainerP9xView {
        self.view()
    }
}

impl PrometheusContainerP9x {
    pub fn new(update_time: u64) -> (r: Self)
        ensures
            r@.update_time == update_time,
            r@.p9x_values.len() == 0,
    {
        let r = PrometheusContainerP9x { update_time, p9x_values: Vec::new() };
        proof {
            assert(r@.p9x_values =~= Seq::<UrlP9xView>::empty());
        }
        r
    }

    /// Folds one reported value in: zero values are ignored, others
    /// replace the endpoint's threshold and touch the container.
    pub fn update_p9x(&mut self, url: &String, value: u64, time: u64)
        ensures
            final(self)@ == spec_update_container(old(self)@, url@, value, time),
    {
        if value > 0 {
            let ghost s = self.p9x_values.deep_view();
            let mut i: usize = 0;
            let mut found: bool = false;
            while i < self.p9x_values.len() && !found
                invariant
                    i <= s.len(),
                    s == self.p9x_values.deep_view(),
                    s.len() == self.p9x_values@.len(),
                    !found ==> forall|m: int| 0 <= m < i ==> (#[trigger] s[m]).url != url@,
                    found ==> i < s.len() && s[i as int].url == url@ && (forall|m: int|
                        0 <= m < i ==> (#[trigger] s[m]).url != url@),
                decreases s.len() - i, (if found { 0int } else { 1int }),
            {
                if self.p9x_values[i].url.eq(url) {
                    found = true;
                } else {
                    i = i + 1;
                }
            }
            if found {
                let ghost prev = self.p9x_values@;
                let entry = &mut self.p9x_values[i];
                entry.value = value;
                proof {
                    assert forall|m: int| 0 <= m < self.p9x_values.deep_view().len() implies
                        self.p9x_values.deep_view()[m] == s.update(
                        i as int,
                        UrlP9xView { url: url@, value },
                    )[m] by {
                        assert(self.p9x_values.deep_view()[m] == self.p9x_values@[m]@);
                        if m != i {
                            assert(self.p9x_values@[m] == prev[m]);
                        }
                    }
                    assert(self.p9x_values.deep_view() =~= s.update(
                        i as int,
                        UrlP9xView { url: url@, value },
                    ));
                    lemma_url_upsert_found(s, url@, value, i as int);
                }
            } else {
                self.p9x_values.push(UrlP9x { url: url.clone(), value });
                proof {
                    assert(self.p9x_values.deep_view() =~= s.push(UrlP9xView { url: url@, value }));
                    lemma_url_upsert_none(s, url@, value);
                }
            }
            self.update_time = time;
        }
    }
}

/// First-match threshold lookup among one container's endpoints.
pub open spec fn url_p9x_of(s: Seq<UrlP9xView>, url: Seq<char>) -> u64
    decreases s.len(),
{
    if s.len() == 0 {
        0
    } else if s[0].url == url {
        s[0].value
    } else {
        url_p9x_of(s.skip(1), url)
    }
}

/// The endpoint list after one value lands: replace the first match, or
/// append.
pub open spec fn spec_url_upsert(s: Seq<UrlP9xView>, url: Seq<char>, value: u64) -> Seq<UrlP9xView>
    decreases s.len(),
{
    if s.len() == 0 {
        seq![UrlP9xView { url, value }]
    } else if s[0].url == url {
        seq![UrlP9xView { url, value }] + s.skip(1)
    } else {
        seq![s[0]] + spec_url_upsert(s.skip(1), url, value)
    }
}

/// One container after one reported value.
pub open spec fn spec_update_container(
    c: ContainerP9xView,
    url: Seq<char>,
    value: u64,
    time: u64,
) -> ContainerP9xView {
    if value > 0 {
        ContainerP9xView { update_time: time, p9x_values: spec_url_upsert(c.p9x_values, url, value) }
    } else {
        c
    }
}

/// When the first match sits at `i`, the upsert is an update there.
pub proof fn lemma_url_upsert_found(s: Seq<UrlP9xView>, url: Seq<char>, value: u64, i: int)
    requires
        0 <= i < s.len(),
        s[i].url == url,
        forall|m: int| 0 <= m < i ==> (#[trigger] s[m]).url != url,
    ensures
        spec_url_upsert(s, url, value) == s.update(i, UrlP9xView { url, value }),
    decreases i,
{
    if i == 0 {
        assert(spec_url_upsert(s, url, value) =~= s.update(0, UrlP9xView { url, value }));
    } else {
        assert forall|m: int| 0 <= m < i - 1 implies (#[trigger] s.skip(1)[m]).url != url by {
            assert(s.skip(1)[m] == s[m + 1]);
        }
        assert(s.skip(1)[i - 1] == s[i]);
        lemma_url_upsert_found(s.skip(1), url, value, i - 1);
        assert(spec_url_upsert(s, url, value) =~= s.update(i, UrlP9xView { url, value }));
    }
}

/// With no match, the upsert is an append.
pub proof fn lemma_url_upsert_none(s: Seq<UrlP9xView>, url: Seq<char>, value: u64)
    requires
        forall|m: int| 0 <= m < s.len() ==> (#[trigger] s[m]).url != url,
    ensures
        spec_url_upsert(s, url, value) == s.push(UrlP9xView { url, value }),
    decreases s.len(),
{
    if s.len() == 0 {
        assert(spec_url_upsert(s, url, value) =~= s.push(UrlP9xView { url, value }));
    } else {
        assert forall|m: int| 0 <= m < s.skip(1).len() implies (#[trigger] s.skip(1)[m]).url
            != url by {
            assert(s.skip(1)[m] == s[m + 1]);
        }
        lemma_url_upsert_none(s.skip(1), url, value);
        assert(spec_url_upsert(s, url, value) =~= s.push(UrlP9xView { url, value }));
    }
}

/// One refreshable container under its id.
pub struct ContainerEntry {
    pub container_id: String,
    pub p9x: PrometheusContainerP9x,
}

#[verifier::ext_equal]
pub ghost struct ContainerEntryView {
    pub container_id: Seq<char>,
    pub p9x: ContainerP9xView,
}

impl View for ContainerEntry {
    type V = ContainerEntryView;

    open spec fn view(&self) -> ContainerEntryView {
        ContainerEntryView { container_id: self.container_id@, p9x: self.p9x@ }
    }
}

impl DeepView for ContainerEntry {
    type V = ContainerEntryView;

    open spec fn deep_view(&self) -> ContainerEntryView {
        self.view()
    }
}

/// First-match threshold lookup across containers.
pub open spec fn p9x_of(s: Seq<ContainerEntryView>, cid: Seq<char>, url: Seq<char>) -> u64
    decreases s.len(),
{
    if s.len() == 0 {
        0
    } else if s[0].container_id == cid {
        url_p9x_of(s[0].p9x.p9x_values, url)
    } else {
        p9x_of(s.skip(1), cid, url)
    }
}

/// One reported tuple folded into the table: the first matching container
/// absorbs it, or a fresh container is appended.  A zero value still
/// brings the container into existence, since the container is created
/// before the value is examined, but changes no threshold.
pub open spec fn spec_apply_entry(
    s: Seq<ContainerEntryView>,
    cid: Seq<char>,
    url: Seq<char>,
    value: u64,
    now: u64,
) -> Seq<ContainerEntryView>
    decreases s.len(),
{
    if s.len() == 0 {
        seq![
            ContainerEntryView {
                container_id: cid,
                p9x: spec_update_container(
                    ContainerP9xView { update_time: now, p9x_values: Seq::empty() },
                    url,
                    value,
                    now,
                ),
            },
        ]
    } else if s[0].container_id == cid {
        seq![
            ContainerEntryView {
                container_id: cid,
                p9x: spec_update_container(s[0].p9x, url, value, now),
            },
        ] + s.skip(1)
    } else {
        seq![s[0]] + spec_apply_entry(s.skip(1), cid, url, value, now)
    }
}

/// The containers surviving eviction: touched more recently than
/// `timeout` seconds before `now`.
pub open spec fn spec_evict(s: Seq<ContainerEntryView>, now: u64, timeout: u64) -> Seq<
    ContainerEntryView,
>
    decreases s.len(),
{
    if s.len() == 0 {
        Seq::empty()
    } else {
        (if s[0].p9x.update_time <= now && now - s[0].p9x.update_time < timeout {
            seq![s[0]]
        } else {
            Seq::empty()
        }) + spec_evict(s.skip(1), now, timeout)
    }
}

/// One decoded (containerId, url, percentile) tuple from the verdict
/// service.
pub struct P9xEntry {
    pub container_id: String,
    pub url: String,
    pub value: u64,
}

#[verifier::ext_equal]
pub ghost struct P9xEntryView {
    pub container_id: Seq<char>,
    pub url: Seq<char>,
    pub value: u64,
}

impl View for P9xEntry {
    type V = P9xEntryView;

    open spec fn view(&self) -> P9xEntryView {
        P9xEntryView { container_id: self.container_id@, url: self.url@, value: self.value }
    }
}

impl DeepView for P9xEntry {
    type V = P9xEntryView;

    open spec fn deep_view(&self) -> P9xEntryView {
        self.view()
    }
}

/// A whole response folded in, tuple by tuple.
pub open spec fn spec_apply_all(
    s: Seq<ContainerEntryView>,
    datas: Seq<P9xEntryView>,
    i: int,
    now: u64,
) -> Seq<ContainerEntryView>
    decreases datas.len() - i,
{
    if i < 0 || i >= datas.len() {
        s
    } else {
        spec_apply_all(
            spec_apply_entry(s, datas[i].container_id, datas[i].url, datas[i].value, now),
            datas,
            i + 1,
            now,
        )
    }
}

/// The percentile table.
pub struct PrometheusP9xCache {
    pub p9x_cache: Vec<ContainerEntry>,
    pub host_name: String,
    /// Seconds a container survives untouched.
    pub timeout: u64,
}

impl PrometheusP9xCache {
    pub open spec fn table(&self) -> Seq<ContainerEntryView> {
        self.p9x_cache.deep_view()
    }

    /// `host_name` identifies this host toward the verdict service; the
    /// surrounding program reads it from its environment.
    pub fn new(host_name: String) -> (r: Self)
        ensures
            r.table().len() == 0,
            r.host_name@ == host_name@,
            r.timeout == 86400u64,
    {
        let r = PrometheusP9xCache { p9x_cache: Vec::new(), host_name, timeout: 24 * 3600 };
        proof {
            assert(r.table() =~= Seq::<ContainerEntryView>::empty());
        }
        r
    }

    /// The threshold stored for the record's container and endpoint; zero
    /// when none is known.
    pub fn get_p9x(&self, trace: &SampleTrace) -> (r: u64)
        ensures
            r == p9x_of(self.table(), trace@.event.container_id, trace@.event.content_key),
    {
        let ghost s = self.table();
        let mut i: usize = 0;
        proof {
            assert(s.skip(0) =~= s);
        }
        while i < self.p9x_cache.len()
            invariant
                i <= s.len(),
                s == self.table(),
                s.len() == self.p9x_cache@.len(),
                p9x_of(s.skip(i as int), trace@.event.container_id, trace@.event.content_key)
                    == p9x_of(s, trace@.event.container_id, trace@.event.content_key),
            decreases s.len() - i,
        {
            let entry = &self.p9x_cache[i];
            proof {
                assert(entry@ == s[i as int]);
                assert(s.skip(i as int)[0] == s[i as int]);
                vstd::seq_lib::lemma_seq_skip_of_skip(s, i as int, 1);
                assert(s.skip(i as int).skip(1) =~= s.skip(i + 1));
            }
            if entry.container_id.eq(&trace.event.container_id) {
                let r = url_p9x_lookup(&entry.p9x.p9x_values, &trace.event.content_key);
                return r;
            }
            i = i + 1;
        }
        proof {
            assert(s.skip(s.len() as int) =~= Seq::<ContainerEntryView>::empty());
        }
        0
    }

    /// Folds a decoded verdict-service response in and evicts containers
    /// untouched past the timeout; an empty response changes nothing.
    pub fn update_p9x_by_grpc(&mut self, datas: Vec<P9xEntry>, now: u64)
        ensures
            datas.deep_view().len() == 0 ==> final(self).table() == old(self).table(),
            datas.deep_view().len() > 0 ==> final(self).table() == spec_evict(
                spec_apply_all(old(self).table(), datas.deep_view(), 0, now),
                now,
                final(self).timeout,
            ),
            final(self).host_name@ == old(self).host_name@,
            final(self).timeout == old(self).timeout,
    {
        if datas.len() == 0 {
            return ;
        }
        let ghost dvs = datas.deep_view();
        let mut i: usize = 0;
        while i < datas.len()
            invariant
                i <= dvs.len(),
                dvs == datas.deep_view(),
                dvs.len() == datas@.len(),
                spec_apply_all(self.table(), dvs, i as int, now) == spec_apply_all(
                    old(self).table(),
                    dvs,
                    0,
                    now,
                ),
                self.host_name@ == old(self).host_name@,
                self.timeout == old(self).timeout,
            decreases dvs.len() - i,
        {
            let data = &datas[i];
            proof {
                assert(data@ == dvs[i as int]);
            }
            self.apply_entry(data, now);
            i = i + 1;
        }
        let _expired = self.evict_expired(now);
    }

    /// Folds one reported tuple in.
    fn apply_entry(&mut self, data: &P9xEntry, now: u64)
        ensures
            final(self).table() == spec_apply_entry(
                old(self).table(),
                data@.container_id,
                data@.url,
                data@.value,
                now,
            ),
            final(self).host_name@ == old(self).host_name@,
            final(self).timeout == old(self).timeout,
    {
        let ghost s = self.table();
        let mut i: usize = 0;
        let mut found: bool = false;
        while i < self.p9x_cache.len() && !found
            invariant
                i <= s.len(),
                s == self.table(),
                s.len() == self.p9x_cache@.len(),
                !found ==> forall|m: int|
                    0 <= m < i ==> (#[trigger] s[m]).container_id != data@.container_id,
                found ==> i < s.len() && s[i as int].container_id == data@.container_id && (forall|
                    m: int,
                |
                    0 <= m < i ==> (#[trigger] s[m]).container_id != data@.container_id),
            decreases s.len() - i, (if found { 0int } else { 1int }),
        {
            if self.p9x_cache[i].container_id.eq(&data.container_id) {
                found = true;
            } else {
                i = i + 1;
            }
        }
        if found {
            let ghost prev = self.p9x_cache@;
            let entry = &mut self.p9x_cache[i];
            entry.p9x.update_p9x(&data.url, data.value, now);
            proof {
                assert forall|m: int| 0 <= m < self.table().len() implies self.table()[m]
                    == s.update(
                    i as int,
                    ContainerEntryView {
                        container_id: data@.container_id,
                        p9x: spec_update_container(s[i as int].p9x, data@.url, data@.value, now),
                    },
                )[m] by {
                    assert(self.table()[m] == self.p9x_cache@[m]@);
                    if m != i {
                        assert(self.p9x_cache@[m] == prev[m]);
                    }
                }
                assert(self.table() =~= s.update(
                    i as int,
                    ContainerEntryView {
                        container_id: data@.container_id,
                        p9x: spec_update_container(s[i as int].p9x, data@.url, data@.value, now),
                    },
                ));
                lemma_apply_entry_found(s, data@.container_id, data@.url, data@.value, now, i as int);
            }
        } else {
            let mut container = PrometheusContainerP9x::new(now);
            proof {
                assert(container@.p9x_values =~= Seq::<UrlP9xView>::empty());
                assert(container@ =~= (ContainerP9xView {
                    update_time: now,
                    p9x_values: Seq::empty(),
                }));
            }
            container.update_p9x(&data.url, data.value, now);
            self.p9x_cache.push(
                ContainerEntry { container_id: data.container_id.clone(), p9x: container },
            );
            proof {
                assert(self.table() =~= s.push(
                    ContainerEntryView {
                        container_id: data@.container_id,
                        p9x: spec_update_container(
                            ContainerP9xView { update_time: now, p9x_values: Seq::empty() },
                            data@.url,
                            data@.value,
                            now,
                        ),
                    },
                ));
                lemma_apply_entry_none(s, data@.container_id, data@.url, data@.value, now);
            }
        }
    }

    /// Drops containers untouched past the timeout, reporting how many.
    fn evict_expired(&mut self, now: u64) -> (r: usize)
        ensures
            final(self).table() == spec_evict(old(self).table(), now, old(self).timeout),
            final(self).host_name@ == old(self).host_name@,
            final(self).timeout == old(self).timeout,
    {
        let ghost s = self.table();
        let n = self.p9x_cache.len();
        let mut kept: Vec<ContainerEntry> = Vec::new();
        let mut removed: usize = 0;
        let mut i: usize = 0;
        proof {
            assert(s.skip(0) =~= s);
            assert(kept.deep_view() + spec_evict(s.skip(0), now, self.timeout) =~= spec_evict(
                s,
                now,
                self.timeout,
            ));
        }
        while i < n
            invariant
                i <= n,
                n == self.p9x_cache@.len(),
                s == self.table(),
                s.len() == n,
                removed <= i,
                kept.deep_view() + spec_evict(s.skip(i as int), now, self.timeout) == spec_evict(
                    s,
                    now,
                    self.timeout,
                ),
                self.host_name@ == old(self).host_name@,
                self.timeout == old(self).timeout,
            decreases n - i,
        {
            let entry = &self.p9x_cache[i];
            proof {
                assert(entry@ == s[i as int]);
                assert(s.skip(i as int)[0] == s[i as int]);
                vstd::seq_lib::lemma_seq_skip_of_skip(s, i as int, 1);
                assert(s.skip(i as int).skip(1) =~= s.skip(i + 1));
            }
            let ghost kept_before = kept.deep_view();
            if entry.p9x.update_time <= now && now - entry.p9x.update_time < self.timeout {
                let copy = ContainerEntry {
                    container_id: entry.container_id.clone(),
                    p9x: clone_container(&entry.p9x),
                };
                proof {
                    assert(copy@ == s[i as int]);
                }
                kept.push(copy);
                proof {
                    assert(kept.deep_view() =~= kept_before.push(kept@.last().deep_view()));
                }
            } else {
                removed = removed + 1;
            }
            proof {
                assert(kept.deep_view() + spec_evict(s.skip(i + 1), now, self.timeout)
                    =~= kept_before + spec_evict(s.skip(i as int), now, self.timeout));
            }
            i = i + 1;
        }
        self.p9x_cache = kept;
        proof {
            assert(s.skip(n as int) =~= Seq::<ContainerEntryView>::empty());
            assert(spec_evict(s.skip(n as int), now, self.timeout) =~= Seq::<
                ContainerEntryView,
            >::empty());
            assert(self.table() =~= self.table() + Seq::<ContainerEntryView>::empty());
        }
        removed
    }
}

/// First-match lookup among one container's endpoints, executable form.
fn url_p9x_lookup(values: &Vec<UrlP9x>, url: &String) -> (r: u64)
    ensures
        r == url_p9x_of(values.deep_view(), url@),
{
    let ghost s = values.deep_view();
    let mut i: usize = 0;
    proof {
        assert(s.skip(0) =~= s);
    }
    while i < values.len()
        invariant
            i <= s.len(),
            s == values.deep_view(),
            s.len() == values@.len(),
            url_p9x_of(s.skip(i as int), url@) == url_p9x_of(s, url@),
        decreases s.len() - i,
    {
        let entry = &values[i];
        proof {
            assert(entry@ == s[i as int]);
            assert(s.skip(i as int)[0] == s[i as int]);
            vstd::seq_lib::lemma_seq_skip_of_skip(s, i as int, 1);
            assert(s.skip(i as int).skip(1) =~= s.skip(i + 1));
        }
        if entry.url.eq(url) {
            return entry.value;
        }
        i = i + 1;
    }
    proof {
        assert(s.skip(s.len() as int) =~= Seq::<UrlP9xView>::empty());
    }
    0
}

fn clone_container(c: &PrometheusContainerP9x) -> (r: PrometheusContainerP9x)
    ensures
        r@ == c@,
{
    let mut p9x_values: Vec<UrlP9x> = Vec::new();
    let mut i: usize = 0;
    while i < c.p9x_values.len()
        invariant
            i <= c.p9x_values@.len(),
            p9x_values@.len() == i,
            forall|m: int|
                0 <= m < i ==> (#[trigger] p9x_values@[m])@ == c.p9x_values@[m]@,
        decreases c.p9x_values@.len() - i,
    {
        p9x_values.push(
            UrlP9x { url: c.p9x_values[i].url.clone(), value: c.p9x_values[i].value },
        );
        i = i + 1;
    }
    let r = PrometheusContainerP9x { update_time: c.update_time, p9x_values };
    proof {
        assert forall|m: int| 0 <= m < c.p9x_values@.len() implies r.p9x_values.deep_view()[m]
            == c.p9x_values.deep_view()[m] by {
            assert(r.p9x_values@[m]@ == c.p9x_values@[m]@);
        }
        assert(r.p9x_values.deep_view() =~= c.p9x_values.deep_view());
    }
    r
}

/// When the first matching container sits at `i`, the fold updates there.
pub proof fn lemma_apply_entry_found(
    s: Seq<ContainerEntryView>,
    cid: Seq<char>,
    url: Seq<char>,
    value: u64,
    now: u64,
    i: int,
)
    requires
        0 <= i < s.len(),
        s[i].container_id == cid,
        forall|m: int| 0 <= m < i ==> (#[trigger] s[m]).container_id != cid,
    ensures
        spec_apply_entry(s, cid, url, value, now) == s.update(
            i,
            ContainerEntryView { container_id: cid, p9x: spec_update_container(s[i].p9x, url, value, now) },
        ),
    decreases i,
{
    let target = s.update(
        i,
        ContainerEntryView { container_id: cid, p9x: spec_update_container(s[i].p9x, url, value, now) },
    );
    if i == 0 {
        assert(spec_apply_entry(s, cid, url, value, now) =~= target);
    } else {
        assert forall|m: int| 0 <= m < i - 1 implies (#[trigger] s.skip(1)[m]).container_id
            != cid by {
            assert(s.skip(1)[m] == s[m + 1]);
        }
        assert(s.skip(1)[i - 1] == s[i]);
        lemma_apply_entry_found(s.skip(1), cid, url, value, now, i - 1);
        assert(spec_apply_entry(s, cid, url, value, now) =~= target);
    }
}

/// With no matching container, the fold appends a fresh one.
pub proof fn lemma_apply_entry_none(
    s: Seq<ContainerEntryView>,
    cid: Seq<char>,
    url: Seq<char>,
    value: u64,
    now: u64,
)
    requires
        forall|m: int| 0 <= m < s.len() ==> (#[trigger] s[m]).container_id != cid,
    ensures
        spec_apply_entry(s, cid, url, value, now) == s.push(
            ContainerEntryView {
                container_id: cid,
                p9x: spec_update_container(
                    ContainerP9xView { update_time: now, p9x_values: Seq::empty() },
                    url,
                    value,
                    now,
                ),
            },
        ),
    decreases s.len(),
{
    let fresh = ContainerEntryView {
        container_id: cid,
        p9x: spec_update_container(
            ContainerP9xView { update_time: now, p9x_values: Seq::empty() },
            url,
            value,
            now,
        ),
    };
    if s.len() == 0 {
        assert(spec_apply_entry(s, cid, url, value, now) =~= s.push(fresh));
    } else {
        assert forall|m: int| 0 <= m < s.skip(1).len() implies (#[trigger] s.skip(
            1,
        )[m]).container_id != cid by {
            assert(s.skip(1)[m] == s[m + 1]);
        }
        lemma_apply_entry_none(s.skip(1), cid, url, value, now);
        assert(spec_apply_entry(s, cid, url, value, now) =~= s.push(fresh));
    }
}

} // verus!
