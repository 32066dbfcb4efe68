//! What goes into a solve: the platforms to fetch records for, the records
//! to favor, and the records to leave out.

use crate::platform::Platform;
use crate::table::{Table, TableView};
use crate::text::{begins, chars_of, concat3, has_at, same};
use vstd::prelude::*;
use vstd::string::*;

verus! {

/// What tells a record of a package from others, and where it is.
#[derive(Debug, Clone, PartialEq, Eq)]
pub struct Record {
    /// The normalized package name.
    pub name: String,
    /// The version.
    pub version: String,
    /// The build string.
    pub build: String,
    /// Where the package is downloaded from.
    pub url: String,
}

/// A record as mathematical values.
pub struct RecordView {
    pub name: Seq<char>,
    pub version: Seq<char>,
    pub build: Seq<char>,
    pub url: Seq<char>,
}

impl DeepView for Record {
    type V = RecordView;

    open spec fn deep_view(&self) -> RecordView {
        RecordView {
            name: self.name@,
            version: self.version@,
            build: self.build@,
            url: self.url@,
        }
    }
}

/// What a record goes by: its name, version and build.
pub open spec fn identity(r: RecordView) -> Seq<char> {
    r.name + "-"@ + r.version + "-"@ + r.build
}

/// What a record goes by: its name, version and build.
pub fn identity_key(record: &Record) -> (r: String)
    ensures
        r@ == identity(record.deep_view()),
{
    let head = concat3(record.name.as_str(), "-", record.version.as_str());
    concat3(head.as_str(), "-", record.build.as_str())
}

/// The platforms to fetch records for: the target, and what is the same on
/// every platform.
pub fn fetch_platforms(platform: Platform) -> (r: Vec<Platform>)
    ensures
        r@ == if platform is NoArch {
            seq![Platform::NoArch]
        } else {
            seq![platform, Platform::NoArch]
        },
{
    let mut out: Vec<Platform> = Vec::new();
    out.push(platform);
    if platform != Platform::NoArch {
        out.push(Platform::NoArch);
    }
    assert(out@ =~= if platform is NoArch {
        seq![Platform::NoArch]
    } else {
        seq![platform, Platform::NoArch]
    });
    out
}

/// The last position before `n` whose record goes by the given text.
pub open spec fn last_of(available: Seq<RecordView>, key: Seq<char>, n: int) -> Option<int>
    decreases n,
{
    if n <= 0 {
        None
    } else if identity(available[n - 1]) == key {
        Some(n - 1)
    } else {
        last_of(available, key, n - 1)
    }
}

/// The positions of the available records that go by what the preferred ones
/// do, in the order of the preferred; of several the last. A preferred
/// record that is no longer available has none.
pub open spec fn favored_positions(
    available: Seq<RecordView>,
    preferred: Seq<RecordView>,
) -> Seq<int>
    decreases preferred.len(),
{
    if preferred.len() == 0 {
        Seq::empty()
    } else {
        let before = favored_positions(available, preferred.drop_last());
        match last_of(available, identity(preferred.last()), available.len() as int) {
            Some(i) => before.push(i),
            None => before,
        }
    }
}

/// The view of positions.
pub open spec fn positions(v: Seq<usize>) -> Seq<int> {
    v.map_values(|i: usize| i as int)
}

/// Whether an index holds the last position of each record before `n`.
spec fn indexes(index: TableView<usize>, available: Seq<RecordView>, n: int) -> bool {
    &&& index.wf()
    &&& forall|key: Seq<char>|
        match last_of(available, key, n) {
            Some(i) => #[trigger] index.has(key) && index.at(key) == i,
            None => !index.has(key),
        }
}

proof fn put_keeps(index: TableView<usize>, key: Seq<char>, value: usize, other: Seq<char>)
    requires
        index.wf(),
    ensures
        index.put(key, value).has(key),
        index.put(key, value).wf() ==> index.put(key, value).at(key) == value,
        other != key ==> index.put(key, value).has(other) == index.has(other),
        other != key && index.has(other) && index.put(key, value).wf() ==> index.put(
            key,
            value,
        ).at(other) == index.at(other),
{
    let after = index.put(key, value);
    if index.has(key) {
        let k = index.keys.index_of(key);
        if index.has(other) && other != key {
            let j = index.keys.index_of(other);
            assert(index.keys[j] == other);
            assert(j != k);
        }
    } else {
        let n = index.keys.len() as int;
        assert(after.keys[n] == key);
        let k = after.keys.index_of(key);
        if k < n {
            assert(index.keys[k] == key);
        }
        if index.has(other) {
            let j = index.keys.index_of(other);
            assert(after.keys[j] == other);
            let m = after.keys.index_of(other);
            if after.wf() {
                assert(m == j);
            }
        }
        if after.has(other) && other != key {
            let m = after.keys.index_of(other);
            if m < n {
                assert(index.keys[m] == other);
            }
        }
    }
}

/// The positions of the available records to favor: those that go by what
/// the preferred ones do.
pub fn favored(available: &Vec<Record>, preferred: &Vec<Record>) -> (r: Vec<usize>)
    ensures
        positions(r@) == favored_positions(available.deep_view(), preferred.deep_view()),
{
    let ghost all = available.deep_view();
    let mut index: Table<usize> = Table::new();
    let mut i: usize = 0;
    assert(index.deep_view().items =~= Seq::empty());
    while i < available.len()
        invariant
            i <= available.len(),
            all == available.deep_view(),
            indexes(index.deep_view(), all, i as int),
        decreases available.len() - i,
    {
        assert(all[i as int] == available@[i as int].deep_view());
        let key = identity_key(&available[i]);
        let ghost before = index.deep_view();
        let ghost k = key@;
        index.put(key, i);
        proof {
            let after = index.deep_view();
            assert forall|other: Seq<char>|
                match last_of(all, other, i + 1) {
                    Some(p) => #[trigger] after.has(other) && after.at(other) == p,
                    None => !after.has(other),
                } by {
                put_keeps(before, k, i, other);
                assert(before.has(other) == (last_of(all, other, i as int) is Some));
            }
        }
        i += 1;
    }
    let ghost wanted = preferred.deep_view();
    let mut out: Vec<usize> = Vec::new();
    let mut j: usize = 0;
    assert(positions(out@) =~= favored_positions(all, wanted.take(0)));
    while j < preferred.len()
        invariant
            j <= preferred.len(),
            all == available.deep_view(),
            wanted == preferred.deep_view(),
            indexes(index.deep_view(), all, all.len() as int),
            positions(out@) == favored_positions(all, wanted.take(j as int)),
        decreases preferred.len() - j,
    {
        assert(wanted.take(j + 1).drop_last() =~= wanted.take(j as int));
        assert(wanted.take(j + 1).last() == preferred@[j as int].deep_view());
        let key = identity_key(&preferred[j]);
        let ghost done = positions(out@);
        if let Some(found) = index.get(key.as_str()) {
            let p: usize = *found;
            proof {
                last_of_bound(all, key@, all.len() as int);
            }
            out.push(p);
            assert(positions(out@) =~= done.push(p as int));
        }
        j += 1;
    }
    assert(wanted.take(j as int) =~= wanted);
    out
}

proof fn last_of_bound(available: Seq<RecordView>, key: Seq<char>, n: int)
    requires
        n <= available.len(),
    ensures
        match last_of(available, key, n) {
            Some(i) => 0 <= i < n && identity(available[i]) == key,
            None => true,
        },
    decreases n,
{
    if n > 0 {
        last_of_bound(available, key, n - 1);
    }
}

/// A package may come from one channel alone: its normalized name, where the
/// channel is, and how the channel is shown.
#[derive(Debug, Clone, PartialEq, Eq)]
pub struct Restriction {
    pub name: String,
    pub channel_url: String,
    pub channel_shown: String,
}

/// A restriction as mathematical values.
pub struct RestrictionView {
    pub name: Seq<char>,
    pub channel_url: Seq<char>,
    pub channel_shown: Seq<char>,
}

impl DeepView for Restriction {
    type V = RestrictionView;

    open spec fn deep_view(&self) -> RestrictionView {
        RestrictionView {
            name: self.name@,
            channel_url: self.channel_url@,
            channel_shown: self.channel_shown@,
        }
    }
}

/// The URL of a channel, ended by a slash.
pub open spec fn with_slash(url: Seq<char>) -> Seq<char> {
    if url.len() > 0 && url.last() == '/' {
        url
    } else {
        url.push('/')
    }
}

/// Whether a URL lies in a channel.
pub open spec fn channel_has(channel_url: Seq<char>, url: Seq<char>) -> bool {
    begins(url, with_slash(channel_url))
}

/// Whether a URL lies in a channel.
pub fn contains_url(channel_url: &str, url: &str) -> (r: bool)
    ensures
        r == channel_has(channel_url@, url@),
{
    let cs = chars_of(channel_url);
    let mut base = channel_url.to_owned();
    if cs.len() == 0 || cs[cs.len() - 1] != '/' {
        base.push('/');
    }
    let us = chars_of(url);
    has_at(&us, 0, base.as_str())
}

/// Why a record is left out by a restriction.
pub open spec fn reason_text(r: RestrictionView) -> Seq<char> {
    r.name + " is restricted to "@ + r.channel_shown + " ("@ + r.channel_url + ")"@
}

/// Why a record is left out by a restriction.
pub fn reason(restriction: &Restriction) -> (r: String)
    ensures
        r@ == reason_text(restriction.deep_view()),
{
    let head = concat3(
        restriction.name.as_str(),
        " is restricted to ",
        restriction.channel_shown.as_str(),
    );
    let tail = concat3(" (", restriction.channel_url.as_str(), ")");
    let mut out = head;
    out.append(tail.as_str());
    assert(out@ =~= reason_text(restriction.deep_view()));
    out
}

/// Whether a restriction leaves out a record: it speaks of the record's
/// package and the record does not lie in its channel.
pub open spec fn excludes(restriction: RestrictionView, record: RecordView) -> bool {
    restriction.name == record.name && !channel_has(restriction.channel_url, record.url)
}

/// A table of left-out URLs, each with the position of the restriction that
/// leaves it out, with the first `n` records under one restriction added.
pub open spec fn with_records(
    before: TableView<usize>,
    restriction: RestrictionView,
    position: usize,
    available: Seq<RecordView>,
    n: int,
) -> TableView<usize>
    decreases n,
{
    if n <= 0 {
        before
    } else {
        let sofar = with_records(before, restriction, position, available, n - 1);
        if excludes(restriction, available[n - 1]) {
            sofar.put(available[n - 1].url, position)
        } else {
            sofar
        }
    }
}

/// The left-out URLs, each with the position of the restriction that leaves
/// it out, under the first `n` restrictions.
pub open spec fn excluded_urls(
    available: Seq<RecordView>,
    restrictions: Seq<RestrictionView>,
    n: int,
) -> TableView<usize>
    decreases n,
{
    if n <= 0 {
        TableView::empty()
    } else {
        with_records(
            excluded_urls(available, restrictions, n - 1),
            restrictions[n - 1],
            (n - 1) as usize,
            available,
            available.len() as int,
        )
    }
}

/// The records to leave out, by URL, each with the position of the
/// restriction that leaves it out.
pub fn build_excluded_candidates(
    available: &Vec<Record>,
    restrictions: &Vec<Restriction>,
) -> (r: Table<usize>)
    ensures
        r.deep_view() == excluded_urls(
            available.deep_view(),
            restrictions.deep_view(),
            restrictions.deep_view().len() as int,
        ),
{
    let ghost all = available.deep_view();
    let ghost rules = restrictions.deep_view();
    let mut out: Table<usize> = Table::new();
    let mut i: usize = 0;
    assert(out.deep_view().items =~= Seq::empty());
    while i < restrictions.len()
        invariant
            i <= restrictions.len(),
            all == available.deep_view(),
            rules == restrictions.deep_view(),
            out.deep_view() == excluded_urls(all, rules, i as int),
        decreases restrictions.len() - i,
    {
        assert(rules[i as int] == restrictions@[i as int].deep_view());
        let ghost before = out.deep_view();
        let mut j: usize = 0;
        while j < available.len()
            invariant
                j <= available.len(),
                i < restrictions.len(),
                all == available.deep_view(),
                rules == restrictions.deep_view(),
                out.deep_view() == with_records(
                    before,
                    rules[i as int],
                    i,
                    all,
                    j as int,
                ),
            decreases available.len() - j,
        {
            assert(all[j as int] == available@[j as int].deep_view());
            assert(rules[i as int] == restrictions@[i as int].deep_view());
            let record = &available[j];
            let rule = &restrictions[i];
            if same(rule.name.as_str(), record.name.as_str()) && !contains_url(
                rule.channel_url.as_str(),
                record.url.as_str(),
            ) {
                out.put(record.url.clone(), i);
            }
            j += 1;
        }
        i += 1;
    }
    out
}

proof fn put_has(t: TableView<usize>, key: Seq<char>, value: usize, other: Seq<char>)
    ensures
        t.put(key, value).has(other) <==> t.has(other) || other == key,
{
    let after = t.put(key, value);
    if t.has(key) {
    } else {
        let n = t.keys.len() as int;
        assert(after.keys[n] == key);
        if t.has(other) {
            let j = t.keys.index_of(other);
            assert(after.keys[j] == other);
        }
        if after.has(other) && other != key {
            let m = after.keys.index_of(other);
            assert(t.keys[m] == other);
        }
    }
}

proof fn with_records_has(
    before: TableView<usize>,
    restriction: RestrictionView,
    position: usize,
    available: Seq<RecordView>,
    n: int,
    url: Seq<char>,
)
    requires
        0 <= n <= available.len(),
    ensures
        with_records(before, restriction, position, available, n).has(url) <==> before.has(url)
            || exists|j: int|
            0 <= j < n && #[trigger] available[j].url == url && excludes(restriction, available[j]),
    decreases n,
{
    if n > 0 {
        with_records_has(before, restriction, position, available, n - 1, url);
        let sofar = with_records(before, restriction, position, available, n - 1);
        if excludes(restriction, available[n - 1]) {
            put_has(sofar, available[n - 1].url, position, url);
        }
        let here = with_records(before, restriction, position, available, n);
        if here.has(url) && !before.has(url) {
            if sofar.has(url) {
                let j = choose|j: int|
                    0 <= j < n - 1 && #[trigger] available[j].url == url && excludes(
                        restriction,
                        available[j],
                    );
                assert(available[j].url == url);
            } else {
                assert(available[n - 1].url == url);
            }
        }
    }
}

/// A URL is left out exactly where a restriction leaves out a record with
/// that URL.
pub proof fn left_out_iff_restricted(
    available: Seq<RecordView>,
    restrictions: Seq<RestrictionView>,
    n: int,
    url: Seq<char>,
)
    requires
        0 <= n <= restrictions.len(),
    ensures
        excluded_urls(available, restrictions, n).has(url) <==> exists|i: int, j: int|
            #![trigger restrictions[i], available[j]]
            0 <= i < n && 0 <= j < available.len() && available[j].url == url && excludes(
                restrictions[i],
                available[j],
            ),
    decreases n,
{
    if n > 0 {
        left_out_iff_restricted(available, restrictions, n - 1, url);
        let before = excluded_urls(available, restrictions, n - 1);
        with_records_has(
            before,
            restrictions[n - 1],
            (n - 1) as usize,
            available,
            available.len() as int,
            url,
        );
        if excluded_urls(available, restrictions, n).has(url) && !before.has(url) {
            let j = choose|j: int|
                0 <= j < available.len() && #[trigger] available[j].url == url && excludes(
                    restrictions[n - 1],
                    available[j],
                );
            assert(excludes(restrictions[n - 1], available[j]));
        }
    }
}

/// How many fetches a solve needs at most, and for which platforms.
#[derive(Debug, Clone, PartialEq, Eq)]
pub struct FetchPlan {
    pub platforms: Vec<Platform>,
    pub expected_fetches: usize,
}

/// Plans the fetches of a solve: every channel for every platform.
pub fn plan_fetch(channels: usize, platform: Platform) -> (r: FetchPlan)
    requires
        2 * channels <= usize::MAX,
    ensures
        r.platforms@ == if platform is NoArch {
            seq![Platform::NoArch]
        } else {
            seq![platform, Platform::NoArch]
        },
        r.expected_fetches == if platform is NoArch {
            channels as int
        } else {
            2 * channels
        },
{
    let platforms = fetch_platforms(platform);
    let expected_fetches: usize = if platforms.len() == 1 {
        channels
    } else {
        2 * channels
    };
    FetchPlan { platforms, expected_fetches }
}

/// What a solver is told of the records it is given: the positions of those
/// to favor, and the URLs of those to leave out, each with its reason.
#[derive(Debug)]
pub struct SolveTask {
    pub favored: Vec<usize>,
    pub excluded: Table<usize>,
    pub reasons: Vec<String>,
}

/// The reasons that restrictions give.
pub open spec fn reason_texts(restrictions: Seq<RestrictionView>) -> Seq<Seq<char>> {
    restrictions.map_values(|r: RestrictionView| reason_text(r))
}

/// Plans a solve from the records that were fetched, the records to favor
/// and the restrictions.
pub fn plan_solve(
    available: &Vec<Record>,
    preferred: &Vec<Record>,
    restrictions: &Vec<Restriction>,
) -> (r: SolveTask)
    ensures
        positions(r.favored@) == favored_positions(available.deep_view(), preferred.deep_view()),
        r.excluded.deep_view() == excluded_urls(
            available.deep_view(),
            restrictions.deep_view(),
            restrictions.deep_view().len() as int,
        ),
        r.reasons.deep_view() == reason_texts(restrictions.deep_view()),
{
    let ghost all = reason_texts(restrictions.deep_view());
    let mut reasons: Vec<String> = Vec::new();
    let mut i: usize = 0;
    while i < restrictions.len()
        invariant
            i <= restrictions.len(),
            all == reason_texts(restrictions.deep_view()),
            reasons.deep_view() =~= all.take(i as int),
        decreases restrictions.len() - i,
    {
        let ghost done = reasons.deep_view();
        let one = reason(&restrictions[i]);
        assert(all[i as int] == one@);
        reasons.push(one);
        i += 1;
        assert(reasons.deep_view() =~= done.push(one@));
        assert(reasons.deep_view() =~= all.take(i as int));
    }
    assert(all.take(i as int) =~= all);
    SolveTask {
        favored: favored(available, preferred),
        excluded: build_excluded_candidates(available, restrictions),
        reasons,
    }
}

proof fn favored_sound(available: Seq<RecordView>, preferred: Seq<RecordView>)
    ensures
        forall|k: int|
            0 <= k < favored_positions(available, preferred).len() ==> {
                let i = #[trigger] favored_positions(available, preferred)[k];
                &&& 0 <= i < available.len()
                &&& exists|j: int|
                    0 <= j < preferred.len() && identity(#[trigger] preferred[j]) == identity(
                        available[i],
                    )
            },
    decreases preferred.len(),
{
    if preferred.len() > 0 {
        let front = preferred.drop_last();
        favored_sound(available, front);
        last_of_bound(available, identity(preferred.last()), available.len() as int);
        let before = favored_positions(available, front);
        let after = favored_positions(available, preferred);
        assert forall|k: int| 0 <= k < after.len() implies {
            let i = #[trigger] after[k];
            &&& 0 <= i < available.len()
            &&& exists|j: int|
                0 <= j < preferred.len() && identity(#[trigger] preferred[j]) == identity(
                    available[i],
                )
        } by {
            let i = after[k];
            if k < before.len() {
                assert(before[k] == i);
                let j = choose|j: int|
                    0 <= j < front.len() && identity(#[trigger] front[j]) == identity(
                        available[i],
                    );
                assert(preferred[j] == front[j]);
            } else {
                assert(identity(preferred[preferred.len() - 1]) == identity(available[i]));
            }
        }
    }
}

/// Only available records are favored, and only such as go by what a
/// preferred record does.
pub proof fn favored_are_available(available: Seq<RecordView>, preferred: Seq<RecordView>, k: int)
    requires
        0 <= k < favored_positions(available, preferred).len(),
    ensures
        ({
            let i = favored_positions(available, preferred)[k];
            &&& 0 <= i < available.len()
            &&& exists|j: int|
                0 <= j < preferred.len() && identity(#[trigger] preferred[j]) == identity(
                    available[i],
                )
        }),
{
    favored_sound(available, preferred);
}

/// A URL is left out exactly where it is that of a record whose own name is
/// restricted, and it does not start with the URL of the channel that the
/// name is restricted to, ended by a slash.
pub proof fn left_out_exactly(
    available: Seq<RecordView>,
    restrictions: Seq<RestrictionView>,
    url: Seq<char>,
)
    ensures
        excluded_urls(available, restrictions, restrictions.len() as int).has(url) <==> exists|
            i: int,
            j: int,
        |
            #![trigger restrictions[i], available[j]]
            0 <= i < restrictions.len() && 0 <= j < available.len() && available[j].url == url
                && available[j].name == restrictions[i].name && !(if restrictions[i].channel_url.len()
                > 0 && restrictions[i].channel_url.last() == '/' {
                restrictions[i].channel_url.is_prefix_of(url)
            } else {
                restrictions[i].channel_url.push('/').is_prefix_of(url)
            }),
{
    left_out_iff_restricted(available, restrictions, restrictions.len() as int, url);
    assert forall|i: int, j: int|
        #![trigger restrictions[i], available[j]]
        0 <= i < restrictions.len() && 0 <= j < available.len() && available[j].url
            == url implies excludes(restrictions[i], available[j]) == (available[j].name
        == restrictions[i].name && !(if restrictions[i].channel_url.len() > 0
        && restrictions[i].channel_url.last() == '/' {
        restrictions[i].channel_url.is_prefix_of(url)
    } else {
        restrictions[i].channel_url.push('/').is_prefix_of(url)
    })) by {
        prefix_begins(url, restrictions[i].channel_url);
        prefix_begins(url, restrictions[i].channel_url.push('/'));
    }
}

proof fn prefix_begins(s: Seq<char>, p: Seq<char>)
    ensures
        begins(s, p) <==> p.is_prefix_of(s),
{
    if begins(s, p) {
        assert forall|i: int| 0 <= i < p.len() implies p[i] == s[i] by {
            assert(s.subrange(0, p.len() as int)[i] == p[i]);
        }
    }
    if p.is_prefix_of(s) {
        assert(s.subrange(0, p.len() as int) =~= p);
    }
}

/// A record of a package that no restriction names is never left out, unless
/// another with its URL is.
pub proof fn unrestricted_names_stay(
    available: Seq<RecordView>,
    restrictions: Seq<RestrictionView>,
    url: Seq<char>,
)
    requires
        forall|i: int, j: int|
            #![trigger restrictions[i], available[j]]
            0 <= i < restrictions.len() && 0 <= j < available.len() && available[j].url == url
                ==> available[j].name != restrictions[i].name,
    ensures
        !excluded_urls(available, restrictions, restrictions.len() as int).has(url),
{
    left_out_exactly(available, restrictions, url);
}

proof fn with_records_at(
    before: TableView<usize>,
    restriction: RestrictionView,
    position: usize,
    available: Seq<RecordView>,
    n: int,
    url: Seq<char>,
)
    requires
        before.wf(),
        0 <= n <= available.len(),
    ensures
        with_records(before, restriction, position, available, n).wf(),
        (exists|j: int|
            0 <= j < n && #[trigger] available[j].url == url && excludes(restriction, available[j]))
            ==> with_records(before, restriction, position, available, n).at(url) == position,
        before.has(url) && !(exists|j: int|
            0 <= j < n && #[trigger] available[j].url == url && excludes(restriction, available[j]))
            ==> with_records(before, restriction, position, available, n).at(url) == before.at(url),
    decreases n,
{
    if n > 0 {
        with_records_at(before, restriction, position, available, n - 1, url);
        with_records_has(before, restriction, position, available, n - 1, url);
        let sofar = with_records(before, restriction, position, available, n - 1);
        if excludes(restriction, available[n - 1]) {
            let key = available[n - 1].url;
            put_wf(sofar, key, position);
            put_keeps(sofar, key, position, url);
            if key != url && exists|j: int|
                0 <= j < n && #[trigger] available[j].url == url && excludes(
                    restriction,
                    available[j],
                ) {
                let j = choose|j: int|
                    0 <= j < n && #[trigger] available[j].url == url && excludes(
                        restriction,
                        available[j],
                    );
                assert(available[j].url == url && j < n - 1);
                assert(sofar.has(url));
            }
            if key == url {
                assert(available[n - 1].url == url);
            }
            if before.has(url) {
                assert(sofar.has(url));
            }
        } else {
            if exists|j: int|
                0 <= j < n && #[trigger] available[j].url == url && excludes(
                    restriction,
                    available[j],
                ) {
                let j = choose|j: int|
                    0 <= j < n && #[trigger] available[j].url == url && excludes(
                        restriction,
                        available[j],
                    );
                assert(available[j].url == url && j < n - 1);
            }
        }
    }
}

proof fn put_wf(t: TableView<usize>, key: Seq<char>, value: usize)
    requires
        t.wf(),
    ensures
        t.put(key, value).wf(),
{
    let after = t.put(key, value);
    if !t.has(key) {
        assert forall|i: int, j: int|
            0 <= i < after.keys.len() && 0 <= j < after.keys.len() && i != j implies after.keys[i]
            != after.keys[j] by {
            if i == t.keys.len() {
                assert(t.keys.contains(t.keys[j]));
            } else if j == t.keys.len() {
                assert(t.keys.contains(t.keys[i]));
            }
        }
    }
}

proof fn excluded_at_last(
    available: Seq<RecordView>,
    restrictions: Seq<RestrictionView>,
    n: int,
    url: Seq<char>,
)
    requires
        0 <= n <= restrictions.len() <= usize::MAX,
        excluded_urls(available, restrictions, n).has(url),
    ensures
        excluded_urls(available, restrictions, n).wf(),
        ({
            let at = excluded_urls(available, restrictions, n).at(url) as int;
            &&& 0 <= at < n
            &&& exists|j: int|
                0 <= j < available.len() && #[trigger] available[j].url == url && excludes(
                    restrictions[at],
                    available[j],
                )
            &&& forall|i: int, j: int|
                #![trigger restrictions[i], available[j]]
                at < i < n && 0 <= j < available.len() && available[j].url == url ==> !excludes(
                    restrictions[i],
                    available[j],
                )
        }),
    decreases n,
{
    if n > 0 {
        let before = excluded_urls(available, restrictions, n - 1);
        excluded_wf(available, restrictions, n - 1);
        with_records_has(
            before,
            restrictions[n - 1],
            (n - 1) as usize,
            available,
            available.len() as int,
            url,
        );
        with_records_at(
            before,
            restrictions[n - 1],
            (n - 1) as usize,
            available,
            available.len() as int,
            url,
        );
        if !(exists|j: int|
            0 <= j < available.len() && #[trigger] available[j].url == url && excludes(
                restrictions[n - 1],
                available[j],
            )) {
            excluded_at_last(available, restrictions, n - 1, url);
        }
    }
}

proof fn excluded_wf(available: Seq<RecordView>, restrictions: Seq<RestrictionView>, n: int)
    requires
        0 <= n <= restrictions.len(),
    ensures
        excluded_urls(available, restrictions, n).wf(),
    decreases n,
{
    if n > 0 {
        excluded_wf(available, restrictions, n - 1);
        with_records_at(
            excluded_urls(available, restrictions, n - 1),
            restrictions[n - 1],
            (n - 1) as usize,
            available,
            available.len() as int,
            Seq::empty(),
        );
    }
}

/// The restriction that a left-out URL is reported with is the last that
/// names a record with that URL and whose channel the URL does not lie in.
pub proof fn left_out_for_the_last_reason(
    available: Seq<RecordView>,
    restrictions: Seq<RestrictionView>,
    url: Seq<char>,
)
    requires
        restrictions.len() <= usize::MAX,
        excluded_urls(available, restrictions, restrictions.len() as int).has(url),
    ensures
        ({
            let at = excluded_urls(available, restrictions, restrictions.len() as int).at(
                url,
            ) as int;
            &&& 0 <= at < restrictions.len()
            &&& !(restrictions[at].channel_url + "/"@).is_prefix_of(url)
            &&& exists|j: int|
                0 <= j < available.len() && #[trigger] available[j].url == url
                    && available[j].name == restrictions[at].name
            &&& forall|i: int, j: int|
                #![trigger restrictions[i], available[j]]
                at < i < restrictions.len() && 0 <= j < available.len() && available[j].url == url
                    && available[j].name == restrictions[i].name
                    ==> restrictions[i].channel_url.is_prefix_of(url)
        }),
{
    excluded_at_last(available, restrictions, restrictions.len() as int, url);
    let at = excluded_urls(available, restrictions, restrictions.len() as int).at(url) as int;
    reveal_strlit("/");
    assert(restrictions[at].channel_url + "/"@ =~= restrictions[at].channel_url.push('/'));
    prefix_begins(url, with_slash(restrictions[at].channel_url));
    if restrictions[at].channel_url.push('/').is_prefix_of(url) {
        assert forall|k: int| 0 <= k < restrictions[at].channel_url.len() implies restrictions[at].channel_url[k]
            == url[k] by {
            assert(restrictions[at].channel_url.push('/')[k] == url[k]);
        }
    }
    let j = choose|j: int|
        0 <= j < available.len() && #[trigger] available[j].url == url && excludes(
            restrictions[at],
            available[j],
        );
    assert(available[j].url == url && available[j].name == restrictions[at].name);
    assert forall|i: int, j: int|
        #![trigger restrictions[i], available[j]]
        at < i < restrictions.len() && 0 <= j < available.len() && available[j].url == url
            && available[j].name
            == restrictions[i].name implies restrictions[i].channel_url.is_prefix_of(url) by {
        prefix_begins(url, with_slash(restrictions[i].channel_url));
        let base = with_slash(restrictions[i].channel_url);
        assert(base.is_prefix_of(url));
        assert forall|k: int| 0 <= k < restrictions[i].channel_url.len() implies restrictions[i].channel_url[k]
            == url[k] by {
            assert(base[k] == url[k]);
        }
    }
}

proof fn last_of_is_last(available: Seq<RecordView>, key: Seq<char>, n: int)
    requires
        0 <= n <= available.len(),
    ensures
        match last_of(available, key, n) {
            Some(i) => 0 <= i < n && identity(available[i]) == key && forall|k: int|
                i < k < n ==> identity(#[trigger] available[k]) != key,
            None => forall|k: int| 0 <= k < n ==> identity(#[trigger] available[k]) != key,
        },
    decreases n,
{
    if n > 0 {
        last_of_is_last(available, key, n - 1);
    }
}

/// Each preferred record adds the position of the last available record that
/// has its name, version and build, joined by hyphens, behind what those
/// before it add; it adds nothing where none has.
pub proof fn favored_record_by_record(
    available: Seq<RecordView>,
    preferred: Seq<RecordView>,
    one: RecordView,
)
    ensures
        ({
            let before = favored_positions(available, preferred);
            let after = favored_positions(available, preferred.push(one));
            let same = |i: int|
                available[i].name + "-"@ + available[i].version + "-"@ + available[i].build
                    == one.name + "-"@ + one.version + "-"@ + one.build;
            if exists|i: int| 0 <= i < available.len() && #[trigger] same(i) {
                &&& after.len() == before.len() + 1
                &&& before.is_prefix_of(after)
                &&& 0 <= after.last() < available.len()
                &&& same(after.last())
                &&& forall|k: int| after.last() < k < available.len() ==> !#[trigger] same(k)
            } else {
                after == before
            }
        }),
{
    assert(preferred.push(one).drop_last() =~= preferred);
    last_of_is_last(available, identity(one), available.len() as int);
    let same = |i: int|
        available[i].name + "-"@ + available[i].version + "-"@ + available[i].build == one.name
            + "-"@ + one.version + "-"@ + one.build;
    assert forall|i: int| same(i) == (identity(available[i]) == identity(one)) by {}
}

/// Without preferred records none is favored.
pub proof fn nothing_preferred_nothing_favored(available: Seq<RecordView>)
    ensures
        favored_positions(available, Seq::empty()).len() == 0,
{
}

/// The reason for leaving a record out names the package, the channel and
/// where that is.
pub proof fn reason_tells_all(r: RestrictionView)
    ensures
        r.name.is_prefix_of(reason_text(r)),
        exists|a: Seq<char>, b: Seq<char>, c: Seq<char>| reason_text(r)
            == #[trigger] (r.name + a + r.channel_shown + b + r.channel_url + c),
{
    assert(reason_text(r) == r.name + " is restricted to "@ + r.channel_shown + " ("@
        + r.channel_url + ")"@);
}

} // verus!
