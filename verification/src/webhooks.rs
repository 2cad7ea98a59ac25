//! The webhook registry and the rule deciding which registered hooks a file
//! event reaches. Delivering the HTTP calls is the caller's business; the
//! registry and the selection rule are specified and verified here.

use vstd::prelude::*;

use crate::error::ApiError;
use crate::kvmap::{assoc_insert, assoc_pairs, assoc_remove, map_of, unique_keys};
use crate::metadata::{FileMetadata, MetaView};

verus! {

/// A file event subscribers may ask to hear about.
#[derive(Debug, Clone, Copy, PartialEq, Eq, Hash, Structural)]
pub enum WebhookEvent {
    Uploaded,
    Downloaded,
    Deleted,
    Restored,
    VersionCreated,
}

/// One subscriber: where to call, which events to send, extra headers, and
/// whether it is switched on.
pub struct WebhookConfig {
    pub url: String,
    pub events: Vec<WebhookEvent>,
    pub headers: Vec<(String, String)>,
    pub enabled: bool,
}

/// The mathematical value of a [`WebhookConfig`].
pub ghost struct WebhookConfigView {
    pub url: Seq<char>,
    pub events: Seq<WebhookEvent>,
    pub headers: Seq<(Seq<char>, Seq<char>)>,
    pub enabled: bool,
}

impl View for WebhookConfig {
    type V = WebhookConfigView;

    open spec fn view(&self) -> WebhookConfigView {
        WebhookConfigView {
            url: self.url@,
            events: self.events@,
            headers: self.headers.deep_view(),
            enabled: self.enabled,
        }
    }
}

impl DeepView for WebhookConfig {
    type V = WebhookConfigView;

    open spec fn deep_view(&self) -> WebhookConfigView {
        self.view()
    }
}

impl Clone for WebhookConfig {
    /// A clone carries exactly the same subscriber value.
    fn clone(&self) -> (r: Self)
        ensures
            r@ == self@,
    {
        let mut events: Vec<WebhookEvent> = Vec::new();
        let mut i: usize = 0;
        while i < self.events.len()
            invariant
                0 <= i <= self.events@.len(),
                events@ =~= self.events@.take(i as int),
            decreases self.events@.len() - i,
        {
            events.push(self.events[i]);
            i += 1;
        }
        proof {
            assert(events@ =~= self.events@);
        }
        let mut headers: Vec<(String, String)> = Vec::new();
        let mut j: usize = 0;
        while j < self.headers.len()
            invariant
                0 <= j <= self.headers.len(),
                headers.len() == j,
                forall|t: int| 0 <= t < j ==> headers.deep_view()[t] == self.headers.deep_view()[t],
            decreases self.headers.len() - j,
        {
            let ghost old_h = headers.deep_view();
            headers.push((self.headers[j].0.clone(), self.headers[j].1.clone()));
            proof {
                assert(headers.deep_view() =~= old_h.push(headers.deep_view().last()));
                assert(headers.deep_view()[j as int] == (
                    self.headers@[j as int].0@,
                    self.headers@[j as int].1@,
                ));
                assert(self.headers.deep_view()[j as int] == (
                    self.headers@[j as int].0@,
                    self.headers@[j as int].1@,
                ));
            }
            j += 1;
        }
        proof {
            assert(headers.deep_view() =~= self.headers.deep_view());
        }
        WebhookConfig { url: self.url.clone(), events, headers, enabled: self.enabled }
    }
}

/// What one delivery carries.
pub struct WebhookPayload {
    pub event: WebhookEvent,
    pub timestamp: i64,
    pub storage_name: String,
    pub file_key: String,
    pub metadata: Option<FileMetadata>,
    pub user_id: Option<String>,
}

/// The mathematical value of a [`WebhookPayload`].
pub ghost struct WebhookPayloadView {
    pub event: WebhookEvent,
    pub timestamp: i64,
    pub storage_name: Seq<char>,
    pub file_key: Seq<char>,
    pub metadata: Option<MetaView>,
    pub user_id: Option<Seq<char>>,
}

impl View for WebhookPayload {
    type V = WebhookPayloadView;

    open spec fn view(&self) -> WebhookPayloadView {
        WebhookPayloadView {
            event: self.event,
            timestamp: self.timestamp,
            storage_name: self.storage_name@,
            file_key: self.file_key@,
            metadata: self.metadata.deep_view(),
            user_id: self.user_id.deep_view(),
        }
    }
}

/// Whether an event reaches a subscriber: switched on and subscribed to it.
pub open spec fn should_notify(c: WebhookConfigView, event: WebhookEvent) -> bool {
    c.enabled && c.events.contains(event)
}

/// The registry of subscribers, keyed by name.
pub struct WebhookManager {
    webhooks: Vec<(String, WebhookConfig)>,
}

impl WebhookManager {
    /// The registered subscribers as name-config pairs, in registration
    /// order.
    pub closed spec fn webhook_pairs(&self) -> Seq<(Seq<char>, WebhookConfigView)> {
        assoc_pairs(self.webhooks@)
    }

    /// The registered subscribers, keyed by name.
    pub closed spec fn webhooks_map(&self) -> Map<Seq<char>, WebhookConfigView> {
        map_of(assoc_pairs(self.webhooks@))
    }

    /// The registry invariant: unique names.
    pub closed spec fn inv(&self) -> bool {
        unique_keys(assoc_pairs(self.webhooks@))
    }

    /// An empty registry.
    pub fn new() -> (r: Self)
        ensures
            r.inv(),
            r.webhooks_map() == Map::<Seq<char>, WebhookConfigView>::empty(),
    {
        let r = WebhookManager { webhooks: Vec::new() };
        proof {
            assert(assoc_pairs(r.webhooks@) =~= Seq::empty());
        }
        r
    }

    /// Registers `config` under `name`, replacing any earlier registration.
    pub fn register_webhook(&mut self, name: String, config: WebhookConfig) -> (r: Result<
        (),
        ApiError,
    >)
        requires
            old(self).inv(),
        ensures
            final(self).inv(),
            final(self).webhooks_map() == old(self).webhooks_map().insert(name@, config@),
            r is Ok,
    {
        assoc_insert(&mut self.webhooks, name, config);
        Ok(())
    }

    /// Unregisters the subscriber under `name`; already-absent names pass
    /// silently.
    pub fn unregister_webhook(&mut self, name: &str) -> (r: Result<(), ApiError>)
        requires
            old(self).inv(),
        ensures
            final(self).inv(),
            final(self).webhooks_map() == old(self).webhooks_map().remove(name@),
            r is Ok,
    {
        match assoc_remove(&mut self.webhooks, name) {
            Some(_) => {},
            None => {
                proof {
                    assert(old(self).webhooks_map().remove(name@) =~= old(self).webhooks_map());
                }
            },
        }
        Ok(())
    }

    /// Every registered subscriber with its name.
    pub fn list_webhooks(&self) -> (r: Result<Vec<(String, WebhookConfig)>, ApiError>)
        requires
            self.inv(),
        ensures
            r is Ok,
            r matches Ok(v) ==> assoc_pairs(v@) == self.webhook_pairs(),
    {
        let mut out: Vec<(String, WebhookConfig)> = Vec::new();
        let mut i: usize = 0;
        while i < self.webhooks.len()
            invariant
                0 <= i <= self.webhooks@.len(),
                out@.len() == i,
                forall|t: int|
                    0 <= t < i ==> #[trigger] assoc_pairs(out@)[t] == assoc_pairs(self.webhooks@)[t],
            decreases self.webhooks@.len() - i,
        {
            let ghost old_list = assoc_pairs(out@);
            out.push((self.webhooks[i].0.clone(), self.webhooks[i].1.clone()));
            proof {
                assert(assoc_pairs(out@) =~= old_list.push(assoc_pairs(out@).last()));
                assert(assoc_pairs(out@)[i as int] == (
                    self.webhooks@[i as int].0@,
                    self.webhooks@[i as int].1@,
                ));
                assert(assoc_pairs(self.webhooks@)[i as int] == (
                    self.webhooks@[i as int].0@,
                    self.webhooks@[i as int].1@,
                ));
            }
            i += 1;
        }
        proof {
            assert(assoc_pairs(out@) =~= assoc_pairs(self.webhooks@));
        }
        Ok(out)
    }

    /// The subscribers an event of kind `event` must reach: exactly the
    /// enabled ones subscribed to it.
    pub fn subscribers(&self, event: WebhookEvent) -> (r: Vec<(String, WebhookConfig)>)
        requires
            self.inv(),
        ensures
            forall|t: int|
                0 <= t < r@.len() ==> should_notify((#[trigger] assoc_pairs(r@)[t]).1, event)
                    && self.webhooks_map().dom().contains(assoc_pairs(r@)[t].0)
                    && self.webhooks_map()[assoc_pairs(r@)[t].0] == assoc_pairs(r@)[t].1,
            forall|name: Seq<char>|
                #[trigger] self.webhooks_map().dom().contains(name) && should_notify(
                    self.webhooks_map()[name],
                    event,
                ) ==> exists|t: int|
                    0 <= t < r@.len() && (#[trigger] assoc_pairs(r@)[t]) == (
                    name,
                    self.webhooks_map()[name],
                ),
    {
        let mut out: Vec<(String, WebhookConfig)> = Vec::new();
        let mut i: usize = 0;
        while i < self.webhooks.len()
            invariant
                self.inv(),
                0 <= i <= self.webhooks@.len(),
                forall|t: int|
                    0 <= t < out@.len() ==> should_notify(
                        (#[trigger] assoc_pairs(out@)[t]).1,
                        event,
                    ) && self.webhooks_map().dom().contains(assoc_pairs(out@)[t].0)
                        && self.webhooks_map()[assoc_pairs(out@)[t].0] == assoc_pairs(out@)[t].1,
                forall|j: int|
                    0 <= j < i && should_notify(
                        (#[trigger] assoc_pairs(self.webhooks@)[j]).1,
                        event,
                    ) ==> exists|t: int|
                        0 <= t < out@.len() && (#[trigger] assoc_pairs(out@)[t]) == assoc_pairs(
                            self.webhooks@,
                        )[j],
            decreases self.webhooks@.len() - i,
        {
            let cfg = &self.webhooks[i].1;
            let fire = cfg.enabled && event_list_contains(&cfg.events, event);
            proof {
                assert(assoc_pairs(self.webhooks@)[i as int] == (
                    self.webhooks@[i as int].0@,
                    self.webhooks@[i as int].1@,
                ));
            }
            if fire {
                let ghost old_pairs = assoc_pairs(out@);
                out.push((self.webhooks[i].0.clone(), self.webhooks[i].1.clone()));
                proof {
                    crate::kvmap::lemma_map_of_index(assoc_pairs(self.webhooks@), i as int);
                    assert(assoc_pairs(out@) =~= old_pairs.push(
                        assoc_pairs(self.webhooks@)[i as int],
                    ));
                    assert(assoc_pairs(out@)[old_pairs.len() as int] == assoc_pairs(self.webhooks@)[
                        i as int
                    ]);
                    assert forall|j2: int|
                        0 <= j2 <= i && should_notify(
                            (#[trigger] assoc_pairs(self.webhooks@)[j2]).1,
                            event,
                        ) implies exists|t: int|
                        0 <= t < out@.len() && (#[trigger] assoc_pairs(out@)[t]) == assoc_pairs(
                            self.webhooks@,
                        )[j2] by {
                        if j2 == i as int {
                            assert(assoc_pairs(out@)[old_pairs.len() as int] == assoc_pairs(
                                self.webhooks@,
                            )[j2]);
                        } else {
                            let t0 = choose|t0: int|
                                0 <= t0 < old_pairs.len() && (#[trigger] old_pairs[t0])
                                    == assoc_pairs(self.webhooks@)[j2];
                            assert(assoc_pairs(out@)[t0] == assoc_pairs(self.webhooks@)[j2]);
                        }
                    }
                }
            }
            i += 1;
        }
        proof {
            assert forall|name: Seq<char>|
                #[trigger] self.webhooks_map().dom().contains(name) && should_notify(
                    self.webhooks_map()[name],
                    event,
                ) implies exists|t: int|
                0 <= t < out@.len() && (#[trigger] assoc_pairs(out@)[t]) == (
                name,
                self.webhooks_map()[name],
            ) by {
                crate::kvmap::lemma_map_of_dom_index(assoc_pairs(self.webhooks@), name);
                let j = choose|j: int|
                    0 <= j < assoc_pairs(self.webhooks@).len() && (#[trigger] assoc_pairs(
                        self.webhooks@,
                    )[j]).0 == name && self.webhooks_map()[name] == assoc_pairs(self.webhooks@)[
                        j
                    ].1;
                let t = choose|t: int|
                    0 <= t < out@.len() && (#[trigger] assoc_pairs(out@)[t]) == assoc_pairs(
                        self.webhooks@,
                    )[j];
            }
        }
        out
    }
}

/// Whether `list` holds `event`.
fn event_list_contains(list: &Vec<WebhookEvent>, event: WebhookEvent) -> (r: bool)
    ensures
        r == list@.contains(event),
{
    let mut i: usize = 0;
    while i < list.len()
        invariant
            0 <= i <= list@.len(),
            forall|j: int| 0 <= j < i ==> list@[j] != event,
        decreases list@.len() - i,
    {
        if list[i] == event {
            return true;
        }
        i += 1;
    }
    false
}

} // verus!
