//! Desktop notifications: which events are worth one, what it says, and
//! the script that shows it. Running the script is left to the caller.

use crate::text::chars_of;
use crate::text::decimal;
use crate::text::owned;
use crate::text::push_decimal;
use crate::text::push_str;
use crate::text::str_eq;
use crate::text::string_of;
use vstd::prelude::*;

verus! {

/// How urgent a notification is.
#[derive(Debug, Clone, Copy, PartialEq, Eq, Structural)]
pub enum NotificationPriority {
    Low,
    Normal,
    High,
    Critical,
}

impl Default for NotificationPriority {
    fn default() -> (p: Self)
        ensures
            p == NotificationPriority::Normal,
    {
        NotificationPriority::Normal
    }
}

/// What a notification is about.
#[derive(Debug, Clone, Copy, PartialEq, Eq, Structural)]
pub enum NotificationEvent {
    /// A task completed.
    Complete,
    /// A task failed.
    Error,
    /// A task waits for input.
    WaitingInput,
    /// A task started.
    Started,
    /// Something is off, but not fatal.
    Warning,
}

impl NotificationEvent {
    /// The sign that stands before the title.
    pub open spec fn emoji_text(self) -> Seq<char> {
        match self {
            NotificationEvent::Complete => "✅"@,
            NotificationEvent::Error => "❌"@,
            NotificationEvent::WaitingInput => "⏳"@,
            NotificationEvent::Started => "🚀"@,
            NotificationEvent::Warning => "⚠️"@,
        }
    }

    /// The sign that stands before the title.
    pub fn emoji(&self) -> (s: &'static str)
        ensures
            s@ == self.emoji_text(),
    {
        match self {
            NotificationEvent::Complete => "✅",
            NotificationEvent::Error => "❌",
            NotificationEvent::WaitingInput => "⏳",
            NotificationEvent::Started => "🚀",
            NotificationEvent::Warning => "⚠️",
        }
    }

    /// How urgent an event of this kind is.
    pub open spec fn priority(self) -> NotificationPriority {
        match self {
            NotificationEvent::Complete => NotificationPriority::Normal,
            NotificationEvent::Error => NotificationPriority::High,
            NotificationEvent::WaitingInput => NotificationPriority::High,
            NotificationEvent::Started => NotificationPriority::Low,
            NotificationEvent::Warning => NotificationPriority::Normal,
        }
    }

    /// How urgent an event of this kind is.
    pub fn default_priority(&self) -> (p: NotificationPriority)
        ensures
            p == self.priority(),
    {
        match self {
            NotificationEvent::Complete => NotificationPriority::Normal,
            NotificationEvent::Error => NotificationPriority::High,
            NotificationEvent::WaitingInput => NotificationPriority::High,
            NotificationEvent::Started => NotificationPriority::Low,
            NotificationEvent::Warning => NotificationPriority::Normal,
        }
    }

    /// The sound that goes with an event of this kind, if any.
    pub open spec fn sound_text(self) -> Option<Seq<char>> {
        match self {
            NotificationEvent::Complete => Some("Glass"@),
            NotificationEvent::Error => Some("Basso"@),
            NotificationEvent::WaitingInput => Some("Ping"@),
            NotificationEvent::Started => None,
            NotificationEvent::Warning => Some("Pop"@),
        }
    }

    /// The sound that goes with an event of this kind, if any.
    pub fn sound(&self) -> (s: Option<&'static str>)
        ensures
            match s {
                Some(name) => self.sound_text() == Some(name@),
                None => self.sound_text() is None,
            },
    {
        match self {
            NotificationEvent::Complete => Some("Glass"),
            NotificationEvent::Error => Some("Basso"),
            NotificationEvent::WaitingInput => Some("Ping"),
            NotificationEvent::Started => None,
            NotificationEvent::Warning => Some("Pop"),
        }
    }
}

/// Whether `hour`, an hour of the day, lies in the quiet hours: from 23
/// o'clock to 8 o'clock.
pub open spec fn quiet_at(hour: u32) -> bool {
    hour >= 23 || hour < 8
}

/// Whether `hour` lies in the quiet hours.
pub fn is_quiet_hours(hour: u32) -> (b: bool)
    ensures
        b == quiet_at(hour),
{
    hour >= 23 || hour < 8
}

/// What the user wants to be notified of.
#[derive(Debug, Clone, Copy)]
pub struct NotificationConfig {
    pub enabled: bool,
    pub on_complete: bool,
    pub on_error: bool,
    pub on_waiting: bool,
    pub on_start: bool,
    pub sound: bool,
    pub quiet_hours: bool,
}

/// The configuration of a user who has set nothing: everything on but
/// the notice of a start, quiet hours kept.
pub open spec fn default_config() -> NotificationConfig {
    NotificationConfig {
        enabled: true,
        on_complete: true,
        on_error: true,
        on_waiting: true,
        on_start: false,
        sound: true,
        quiet_hours: true,
    }
}

impl Default for NotificationConfig {
    fn default() -> (c: Self)
        ensures
            c == default_config(),
    {
        NotificationConfig {
            enabled: true,
            on_complete: true,
            on_error: true,
            on_waiting: true,
            on_start: false,
            sound: true,
            quiet_hours: true,
        }
    }
}

impl NotificationConfig {
    /// Whether an event of the kind `event` is worth a notification at
    /// the hour `hour` of the day: notifications are on, the event is
    /// urgent or the hour is not a quiet one that is to be kept, and the
    /// kind of event is asked for. Warnings go with completions.
    pub open spec fn notifies(&self, event: NotificationEvent, hour: u32) -> bool {
        &&& self.enabled
        &&& !(self.quiet_hours && quiet_at(hour) && event.priority() != NotificationPriority::High
            && event.priority() != NotificationPriority::Critical)
        &&& match event {
            NotificationEvent::Complete => self.on_complete,
            NotificationEvent::Error => self.on_error,
            NotificationEvent::WaitingInput => self.on_waiting,
            NotificationEvent::Started => self.on_start,
            NotificationEvent::Warning => self.on_complete,
        }
    }

    /// Whether an event of the kind `event` is worth a notification at
    /// the hour `hour` of the day.
    pub fn should_notify(&self, event: NotificationEvent, hour: u32) -> (b: bool)
        ensures
            b == self.notifies(event, hour),
    {
        if !self.enabled {
            return false;
        }
        if self.quiet_hours && is_quiet_hours(hour) {
            let priority = event.default_priority();
            if priority != NotificationPriority::High && priority != NotificationPriority::Critical {
                return false;
            }
        }
        match event {
            NotificationEvent::Complete => self.on_complete,
            NotificationEvent::Error => self.on_error,
            NotificationEvent::WaitingInput => self.on_waiting,
            NotificationEvent::Started => self.on_start,
            NotificationEvent::Warning => self.on_complete,
        }
    }
}

/// A notification.
#[derive(Debug)]
pub struct Notification {
    pub title: String,
    pub message: String,
    pub subtitle: Option<String>,
    pub event: NotificationEvent,
    pub sound: Option<String>,
}

impl Notification {
    /// A notification without subtitle and with the sound of its event.
    pub fn new(title: &str, message: &str, event: NotificationEvent) -> (n: Self)
        ensures
            n.title@ == title@,
            n.message@ == message@,
            n.subtitle is None,
            n.event == event,
            n.sound is None,
    {
        Notification { title: owned(title), message: owned(message), subtitle: None, event, sound: None }
    }

    /// The notification with `subtitle` as its subtitle.
    pub fn with_subtitle(self, subtitle: &str) -> (n: Self)
        ensures
            n.subtitle matches Some(s) && s@ == subtitle@,
            n.title == self.title,
            n.message == self.message,
            n.event == self.event,
            n.sound == self.sound,
    {
        let mut n = self;
        n.subtitle = Some(owned(subtitle));
        n
    }

    /// The notification with `sound` as its sound.
    pub fn with_sound(self, sound: &str) -> (n: Self)
        ensures
            n.sound matches Some(s) && s@ == sound@,
            n.title == self.title,
            n.message == self.message,
            n.event == self.event,
            n.subtitle == self.subtitle,
    {
        let mut n = self;
        n.sound = Some(owned(sound));
        n
    }

    /// The title with the sign of the event before it.
    pub fn formatted_title(&self) -> (s: String)
        ensures
            s@ == self.event.emoji_text() + " "@ + self.title@,
    {
        let mut out = chars_of(self.event.emoji());
        push_str(&mut out, " ");
        push_str(&mut out, self.title.as_str());
        string_of(&out)
    }
}

/// What stands for the character `c` inside a quoted AppleScript string.
pub open spec fn escaped_char(c: char) -> Seq<char> {
    if c == '\\' {
        seq!['\\', '\\']
    } else if c == '"' {
        seq!['\\', '"']
    } else if c == '\n' {
        seq!['\\', 'n']
    } else {
        seq![c]
    }
}

/// `s` with each backslash, double quote and line feed escaped.
pub open spec fn escaped(s: Seq<char>) -> Seq<char>
    decreases s.len(),
{
    if s.len() == 0 {
        Seq::empty()
    } else {
        escaped(s.drop_last()) + escaped_char(s.last())
    }
}

/// The string made fit for a quoted AppleScript string.
pub fn escape_applescript(s: &str) -> (out: String)
    ensures
        out@ == escaped(s@),
{
    let v = chars_of(s);
    let mut out: Vec<char> = Vec::new();
    let mut i: usize = 0;
    while i < v.len()
        invariant
            i <= v.len(),
            v@ == s@,
            out@ == escaped(v@.take(i as int)),
        decreases v.len() - i,
    {
        let c = v[i];
        let ghost before = out@;
        if c == '\\' {
            out.push('\\');
            out.push('\\');
        } else if c == '"' {
            out.push('\\');
            out.push('"');
        } else if c == '\n' {
            out.push('\\');
            out.push('n');
        } else {
            out.push(c);
        }
        proof {
            assert(v@.take(i + 1).drop_last() =~= v@.take(i as int));
            assert(out@ =~= before + escaped_char(c));
        }
        i += 1;
    }
    assert(v@.take(v.len() as int) =~= v@);
    string_of(&out)
}

/// A span of `secs` seconds in words: seconds below a minute, minutes and
/// seconds below an hour, hours and minutes from there on.
pub open spec fn duration_text(secs: u64) -> Seq<char> {
    if secs < 60 {
        decimal(secs as nat) + "s"@
    } else if secs < 3600 {
        decimal((secs / 60) as nat) + "m "@ + decimal((secs % 60) as nat) + "s"@
    } else {
        decimal((secs / 3600) as nat) + "h "@ + decimal(((secs % 3600) / 60) as nat) + "m"@
    }
}

/// A span of `secs` seconds in words.
pub fn format_duration(secs: u64) -> (s: String)
    ensures
        s@ == duration_text(secs),
{
    let mut out: Vec<char> = Vec::new();
    if secs < 60 {
        push_decimal(&mut out, secs);
        push_str(&mut out, "s");
    } else if secs < 3600 {
        push_decimal(&mut out, secs / 60);
        push_str(&mut out, "m ");
        push_decimal(&mut out, secs % 60);
        push_str(&mut out, "s");
    } else {
        push_decimal(&mut out, secs / 3600);
        push_str(&mut out, "h ");
        push_decimal(&mut out, (secs % 3600) / 60);
        push_str(&mut out, "m");
    }
    assert(out@ =~= duration_text(secs));
    string_of(&out)
}

/// `s` cut down to `max_len` characters: as it is where it is no longer,
/// else its start and three dots in place of the rest, of which the start
/// takes what the dots leave of `max_len`.
pub open spec fn truncated(s: Seq<char>, max_len: int) -> Seq<char> {
    if s.len() <= max_len {
        s
    } else {
        s.take(if max_len >= 3 {
            max_len - 3
        } else {
            0
        }) + "..."@
    }
}

/// `s` cut down to `max_len` characters.
pub fn truncate(s: &str, max_len: usize) -> (out: String)
    ensures
        out@ == truncated(s@, max_len as int),
{
    let v = chars_of(s);
    if v.len() <= max_len {
        return string_of(&v);
    }
    let keep: usize = if max_len >= 3 {
        max_len - 3
    } else {
        0
    };
    let mut out: Vec<char> = Vec::new();
    let mut i: usize = 0;
    while i < keep
        invariant
            i <= keep <= v.len(),
            out@ == v@.take(i as int),
        decreases keep - i,
    {
        out.push(v[i]);
        assert(v@.take(i + 1) =~= v@.take(i as int).push(v@[i as int]));
        i += 1;
    }
    push_str(&mut out, "...");
    string_of(&out)
}

/// The script that shows a notification: the message, the title with its
/// sign, the subtitle unless it is empty, and the name of the sound where
/// there is one.
pub open spec fn script_text(
    message: Seq<char>,
    title: Seq<char>,
    subtitle: Seq<char>,
    sound: Option<Seq<char>>,
) -> Seq<char> {
    "display notification \""@ + escaped(message) + "\" with title \""@ + escaped(title) + "\""@ + (
    if subtitle.len() > 0 {
        " subtitle \""@ + escaped(subtitle) + "\""@
    } else {
        Seq::empty()
    }) + (match sound {
        Some(name) => " sound name \""@ + name + "\""@,
        None => Seq::empty(),
    })
}

/// The key under which a notification counts as sent already.
pub open spec fn dedup_key(n: &Notification) -> Seq<char> {
    n.title@ + ":"@ + n.message@
}

/// Decides which notifications go out, and keeps those sent lately so
/// that none is sent twice in a row.
pub struct NotificationManager {
    config: NotificationConfig,
    recent: Vec<(String, u64)>,
    dedup_interval: u64,
}

impl NotificationManager {
    /// What the user wants to be notified of.
    pub closed spec fn config_spec(&self) -> NotificationConfig {
        self.config
    }

    /// The keys of the notifications sent lately, each with the time, in
    /// seconds, at which it was sent.
    pub closed spec fn sent(&self) -> Seq<(Seq<char>, u64)> {
        Seq::new(self.recent@.len(), |i: int| (self.recent@[i].0@, self.recent@[i].1))
    }

    /// For how many seconds a notification counts as sent lately.
    pub closed spec fn interval(&self) -> u64 {
        self.dedup_interval
    }

    /// Whether the entry `e` still counts as sent lately at the time `now`.
    pub open spec fn is_recent(e: (Seq<char>, u64), now: u64, interval: u64) -> bool {
        now < e.1 || now - e.1 < interval
    }

    /// A manager with the default configuration.
    pub fn new() -> (m: Self)
        ensures
            m.config_spec() == default_config(),
            m.sent().len() == 0,
            m.interval() == 30,
    {
        NotificationManager { config: NotificationConfig::default(), recent: Vec::new(), dedup_interval: 30 }
    }

    /// A manager with the configuration `config`.
    pub fn with_config(config: NotificationConfig) -> (m: Self)
        ensures
            m.config_spec() == config,
            m.sent().len() == 0,
            m.interval() == 30,
    {
        NotificationManager { config, recent: Vec::new(), dedup_interval: 30 }
    }

    /// Puts `config` in the place of the configuration.
    pub fn set_config(&mut self, config: NotificationConfig)
        ensures
            final(self).config_spec() == config,
            final(self).sent() == old(self).sent(),
            final(self).interval() == old(self).interval(),
    {
        self.config = config;
    }

    /// The sound that goes with `notification`: its own, else that of its
    /// event; none where sounds are off.
    pub open spec fn sound_of(&self, notification: &Notification) -> Option<Seq<char>> {
        if !self.config_spec().sound {
            None
        } else {
            match notification.sound {
                Some(name) => Some(name@),
                None => notification.event.sound_text(),
            }
        }
    }

    /// The script that shows `notification`.
    pub fn script(&self, notification: &Notification) -> (s: String)
        ensures
            s@ == script_text(
                notification.message@,
                notification.event.emoji_text() + " "@ + notification.title@,
                match notification.subtitle {
                    Some(sub) => sub@,
                    None => Seq::empty(),
                },
                self.sound_of(notification),
            ),
    {
        let title = notification.formatted_title();
        let mut out = chars_of("display notification \"");
        push_str(&mut out, escape_applescript(notification.message.as_str()).as_str());
        push_str(&mut out, "\" with title \"");
        push_str(&mut out, escape_applescript(title.as_str()).as_str());
        push_str(&mut out, "\"");
        match &notification.subtitle {
            Some(sub) => {
                if sub.as_str().unicode_len() > 0 {
                    push_str(&mut out, " subtitle \"");
                    push_str(&mut out, escape_applescript(sub.as_str()).as_str());
                    push_str(&mut out, "\"");
                }
            },
            None => {},
        }
        if self.config.sound {
            match &notification.sound {
                Some(name) => {
                    push_str(&mut out, " sound name \"");
                    push_str(&mut out, name.as_str());
                    push_str(&mut out, "\"");
                },
                None => match notification.event.sound() {
                    Some(name) => {
                        push_str(&mut out, " sound name \"");
                        push_str(&mut out, name);
                        push_str(&mut out, "\"");
                    },
                    None => {},
                },
            }
        }
        assert(out@ =~= script_text(
            notification.message@,
            notification.event.emoji_text() + " "@ + notification.title@,
            match notification.subtitle {
                Some(sub) => sub@,
                None => Seq::empty(),
            },
            self.sound_of(notification),
        ));
        string_of(&out)
    }

    /// Decides on `notification` at the time `now`, in seconds, and the
    /// hour `hour` of the day. Gives the script to run, or nothing where
    /// the event is not worth a notification or the same title and
    /// message went out within the last thirty seconds. The entries sent
    /// longer ago are forgotten, and a notification that goes out is
    /// remembered.
    pub fn send(&mut self, notification: &Notification, now: u64, hour: u32) -> (r: Option<String>)
        ensures
            Self::sends(old(self), final(self), notification, now, hour, r),
    {
        if !self.config.should_notify(notification.event, hour) {
            return None;
        }
        let mut key_chars = chars_of(notification.title.as_str());
        push_str(&mut key_chars, ":");
        push_str(&mut key_chars, notification.message.as_str());
        let key = string_of(&key_chars);
        assert(key@ =~= dedup_key(notification));
        let ghost all = self.sent();
        let ghost fresh = |e: (Seq<char>, u64)| Self::is_recent(e, now, self.interval());
        let mut kept: Vec<(String, u64)> = Vec::new();
        let mut seen = false;
        let mut i: usize = 0;
        assert(all.take(0) =~= Seq::empty());
        assert(all.take(0).filter(fresh) =~= Seq::empty()) by {
            reveal(Seq::filter);
        }
        while i < self.recent.len()
            invariant
                *self == *old(self),
                all == self.sent(),
                fresh == |e: (Seq<char>, u64)| Self::is_recent(e, now, self.interval()),
                i <= self.recent@.len(),
                Seq::new(kept@.len(), |j: int| (kept@[j].0@, kept@[j].1)) == all.take(i as int).filter(fresh),
                seen == exists|j: int| 0 <= j < kept@.len() && (#[trigger] kept@[j]).0@ == key@,
            decreases self.recent@.len() - i,
        {
            let at = self.recent[i].1;
            proof {
                assert(all.take(i + 1) =~= all.take(i as int).push(all[i as int]));
                all.take(i as int).lemma_filter_push(all[i as int], fresh);
            }
            if now < at || now - at < self.dedup_interval {
                let ghost before = kept@;
                if str_eq(self.recent[i].0.as_str(), key.as_str()) {
                    seen = true;
                }
                kept.push((self.recent[i].0.clone(), at));
                assert(Seq::new(kept@.len(), |j: int| (kept@[j].0@, kept@[j].1)) =~= Seq::new(
                    before.len(),
                    |j: int| (before[j].0@, before[j].1),
                ).push(all[i as int]));
                proof {
                    if seen {
                        if self.recent@[i as int].0@ == key@ {
                            assert(kept@[before.len() as int].0@ == key@);
                        } else {
                            let j = choose|j: int| 0 <= j < before.len() && (#[trigger] before[j]).0@ == key@;
                            assert(kept@[j].0@ == key@);
                        }
                    } else {
                        assert forall|j: int| 0 <= j < kept@.len() implies (#[trigger] kept@[j]).0@ != key@ by {
                            if j < before.len() {
                                assert(before[j].0@ != key@);
                            }
                        }
                    }
                }
            }
            i += 1;
        }
        proof {
            assert(all.take(self.recent@.len() as int) =~= all);
            let kept_view = all.filter(fresh);
            if seen {
                let j = choose|j: int| 0 <= j < kept@.len() && (#[trigger] kept@[j]).0@ == key@;
                assert(kept_view[j].0 == key@);
            } else {
                assert forall|j: int| 0 <= j < kept_view.len() implies (#[trigger] kept_view[j]).0 != key@ by {
                    assert(kept@[j].0@ != key@);
                }
            }
        }
        if seen {
            self.recent = kept;
            assert(self.sent() =~= all.filter(fresh));
            return None;
        }
        let script = self.script(notification);
        kept.push((key, now));
        self.recent = kept;
        assert(self.sent() =~= all.filter(fresh).push((key@, now)));
        Some(script)
    }
    /// What [`NotificationManager::send`] makes of `notification`, as a
    /// relation between the manager before and after and the result.
    pub open spec fn sends(
        pre: &NotificationManager,
        post: &NotificationManager,
        notification: &Notification,
        now: u64,
        hour: u32,
        r: Option<String>,
    ) -> bool {
        &&& post.config_spec() == pre.config_spec()
        &&& post.interval() == pre.interval()
        &&& !pre.config_spec().notifies(notification.event, hour) ==> r is None && post.sent() == pre.sent()
        &&& pre.config_spec().notifies(notification.event, hour) ==> {
            let kept = pre.sent().filter(|e: (Seq<char>, u64)| Self::is_recent(e, now, pre.interval()));
            let key = dedup_key(notification);
            if exists|i: int| 0 <= i < kept.len() && (#[trigger] kept[i]).0 == key {
                r is None && post.sent() == kept
            } else {
                &&& r matches Some(script)
                &&& script@ == script_text(
                    notification.message@,
                    notification.event.emoji_text() + " "@ + notification.title@,
                    match notification.subtitle {
                        Some(sub) => sub@,
                        None => Seq::empty(),
                    },
                    pre.sound_of(notification),
                )
                &&& post.sent() == kept.push((key, now))
            }
        }
    }

    /// Whether `n` is the notification of the kind `event` with the given
    /// title and message, the project as subtitle, and no sound of its own.
    pub open spec fn is_notice(
        n: &Notification,
        title: Seq<char>,
        message: Seq<char>,
        project: Seq<char>,
        event: NotificationEvent,
    ) -> bool {
        &&& n.title@ == title
        &&& n.message@ == message
        &&& n.subtitle matches Some(sub) && sub@ == project
        &&& n.event == event
        &&& n.sound is None
    }

    /// Notifies that `task` of `project` completed, after `duration`
    /// seconds where that is known.
    pub fn notify_complete(
        &mut self,
        project: &str,
        task: &str,
        duration: Option<u64>,
        now: u64,
        hour: u32,
    ) -> (r: Option<String>)
        ensures
            exists|n: Notification|
                Self::is_notice(
                    &n,
                    "Task Completed"@,
                    task@ + match duration {
                        Some(secs) => " ("@ + duration_text(secs) + ")"@,
                        None => Seq::empty(),
                    },
                    project@,
                    NotificationEvent::Complete,
                ) && Self::sends(old(self), final(self), &n, now, hour, r),
    {
        let mut message = chars_of(task);
        match duration {
            Some(secs) => {
                push_str(&mut message, " (");
                push_str(&mut message, format_duration(secs).as_str());
                push_str(&mut message, ")");
            },
            None => {},
        }
        let n = Notification::new("Task Completed", string_of(&message).as_str(), NotificationEvent::Complete).with_subtitle(
            project,
        );
        assert(n.message@ =~= task@ + match duration {
            Some(secs) => " ("@ + duration_text(secs) + ")"@,
            None => Seq::empty(),
        });
        self.send(&n, now, hour)
    }

    /// Notifies that `task` of `project` failed with `error`, of which the
    /// first hundred characters are shown.
    pub fn notify_error(&mut self, project: &str, task: &str, error: &str, now: u64, hour: u32) -> (r:
        Option<String>)
        ensures
            exists|n: Notification|
                Self::is_notice(
                    &n,
                    "Task Failed"@,
                    task@ + ": "@ + truncated(error@, 100),
                    project@,
                    NotificationEvent::Error,
                ) && Self::sends(old(self), final(self), &n, now, hour, r),
    {
        let mut message = chars_of(task);
        push_str(&mut message, ": ");
        push_str(&mut message, truncate(error, 100).as_str());
        let n = Notification::new("Task Failed", string_of(&message).as_str(), NotificationEvent::Error).with_subtitle(
            project,
        );
        self.send(&n, now, hour)
    }

    /// Notifies that `task` of `project` waits for input.
    pub fn notify_waiting(&mut self, project: &str, task: &str, now: u64, hour: u32) -> (r: Option<
        String,
    >)
        ensures
            exists|n: Notification|
                Self::is_notice(
                    &n,
                    "Waiting for Input"@,
                    task@ + " needs your attention"@,
                    project@,
                    NotificationEvent::WaitingInput,
                ) && Self::sends(old(self), final(self), &n, now, hour, r),
    {
        let mut message = chars_of(task);
        push_str(&mut message, " needs your attention");
        let n = Notification::new(
            "Waiting for Input",
            string_of(&message).as_str(),
            NotificationEvent::WaitingInput,
        ).with_subtitle(project);
        self.send(&n, now, hour)
    }

    /// Notifies that `task` of `project` started.
    pub fn notify_started(&mut self, project: &str, task: &str, now: u64, hour: u32) -> (r: Option<
        String,
    >)
        ensures
            exists|n: Notification|
                Self::is_notice(&n, "Task Started"@, task@, project@, NotificationEvent::Started)
                    && Self::sends(old(self), final(self), &n, now, hour, r),
    {
        let n = Notification::new("Task Started", task, NotificationEvent::Started).with_subtitle(project);
        self.send(&n, now, hour)
    }

    /// Notifies of a warning about `project`.
    pub fn notify_warning(&mut self, project: &str, message: &str, now: u64, hour: u32) -> (r: Option<
        String,
    >)
        ensures
            exists|n: Notification|
                Self::is_notice(&n, "Warning"@, message@, project@, NotificationEvent::Warning)
                    && Self::sends(old(self), final(self), &n, now, hour, r),
    {
        let n = Notification::new("Warning", message, NotificationEvent::Warning).with_subtitle(project);
        self.send(&n, now, hour)
    }
}

} // verus!
