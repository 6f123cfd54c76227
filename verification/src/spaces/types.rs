//! The things that spaces are made of.
use vstd::prelude::*;

use crate::json::{Json, JsonView};
use crate::spaces::host_mode::HostMode;
use crate::text;

verus! {

/// What a member may do in a space.
///
/// `read_self` is local to this service and restricts `read` to the member's
/// own records. A writer need not also be a reader.
#[derive(Debug, Clone, Copy, PartialEq, Eq, Structural)]
pub struct MemberAccess {
    pub read: bool,
    pub write: bool,
    pub read_self: bool,
}

impl MemberAccess {
    /// Reads everything.
    #[verifier::allow_in_spec]
    pub fn reader() -> MemberAccess
        returns
            (MemberAccess { read: true, write: false, read_self: false }),
    {
        MemberAccess { read: true, write: false, read_self: false }
    }

    /// Reads everything and writes.
    #[verifier::allow_in_spec]
    pub fn writer() -> MemberAccess
        returns
            (MemberAccess { read: true, write: true, read_self: false }),
    {
        MemberAccess { read: true, write: true, read_self: false }
    }

    /// Reads its own records alone.
    #[verifier::allow_in_spec]
    pub fn self_reader() -> MemberAccess
        returns
            (MemberAccess { read: true, write: false, read_self: true }),
    {
        MemberAccess { read: true, write: false, read_self: true }
    }

    /// Whether reading is limited neither to nothing nor to own records.
    pub open spec fn reads_everything(self) -> bool {
        self.read && !self.read_self
    }

    /// The most that either of two grants permits.
    pub open spec fn joined(self, other: MemberAccess) -> MemberAccess {
        MemberAccess {
            read: self.read || other.read,
            write: self.write || other.write,
            read_self: (self.read_self || other.read_self) && !self.reads_everything()
                && !other.reads_everything(),
        }
    }

    /// Whether this grant permits all that another does.
    pub open spec fn covers(self, other: MemberAccess) -> bool {
        &&& other.read ==> self.read
        &&& other.write ==> self.write
        &&& other.reads_everything() ==> self.reads_everything()
    }

    /// Whether any record can be read.
    pub fn can_read(self) -> (yes: bool)
        ensures
            yes == self.read,
    {
        self.read
    }

    /// Whether records can be written.
    pub fn can_write(self) -> (yes: bool)
        ensures
            yes == self.write,
    {
        self.write
    }

    /// Whether only own records can be read.
    pub fn restricted_to_own_records(self) -> (yes: bool)
        ensures
            yes == self.read_self,
    {
        self.read_self
    }

    /// The most that either of two grants permits.
    pub fn union(self, other: MemberAccess) -> (access: MemberAccess)
        ensures
            access == self.joined(other),
    {
        MemberAccess {
            read: self.read || other.read,
            write: self.write || other.write,
            read_self: (self.read_self || other.read_self) && !(self.read && !self.read_self) && !(
            other.read && !other.read_self),
        }
    }

    /// The word for this grant.
    pub open spec fn wire_text(self) -> Seq<char> {
        if self.write {
            "write"@
        } else if self.reads_everything() {
            "read"@
        } else if self.read {
            "read_self"@
        } else {
            "none"@
        }
    }

    /// The grant that a word stands for.
    pub open spec fn of_wire(word: Seq<char>) -> Option<MemberAccess> {
        if word == "write"@ {
            Some(MemberAccess::writer())
        } else if word == "read"@ {
            Some(MemberAccess::reader())
        } else if word == "read_self"@ {
            Some(MemberAccess::self_reader())
        } else if word == "none"@ {
            Some(MemberAccess { read: false, write: false, read_self: false })
        } else {
            None
        }
    }

    /// The word for this grant.
    pub fn as_wire_str(self) -> (word: &'static str)
        ensures
            word@ == self.wire_text(),
    {
        if self.write {
            "write"
        } else if self.read && !self.read_self {
            "read"
        } else if self.read {
            "read_self"
        } else {
            "none"
        }
    }

    /// The grant that a word stands for.
    pub fn parse_wire(word: &str) -> (access: Option<MemberAccess>)
        ensures
            access == MemberAccess::of_wire(word@),
    {
        if text::same_text(word, "write") {
            Some(MemberAccess::writer())
        } else if text::same_text(word, "read") {
            Some(MemberAccess::reader())
        } else if text::same_text(word, "read_self") {
            Some(MemberAccess::self_reader())
        } else if text::same_text(word, "none") {
            Some(MemberAccess { read: false, write: false, read_self: false })
        } else {
            None
        }
    }
}

/// Joining two grants takes nothing away from either, and adds nothing that
/// neither has.
pub proof fn law_union_is_the_least_cover(a: MemberAccess, b: MemberAccess, c: MemberAccess)
    ensures
        a.joined(b).covers(a),
        a.joined(b).covers(b),
        c.covers(a) && c.covers(b) ==> c.covers(a.joined(b)),
{
}

/// In which order grants are joined, and how often, makes no difference.
pub proof fn law_union_is_order_independent(a: MemberAccess, b: MemberAccess, c: MemberAccess)
    ensures
        a.joined(b) == b.joined(a),
        a.joined(a) == a,
        a.joined(b).joined(c) == a.joined(b.joined(c)),
{
}

/// A member who reads only own records is not promoted by joining grants that
/// do not read everything.
pub proof fn law_own_records_restriction_stays(a: MemberAccess, b: MemberAccess)
    requires
        a.read && a.read_self,
        !b.reads_everything(),
    ensures
        a.joined(b).read && a.joined(b).read_self,
{
}

/// Writing a grant as a word and reading it again gives the grant, for the
/// grants that a word stands for.
pub proof fn law_wire_word_round_trip(word: Seq<char>)
    ensures
        MemberAccess::of_wire(word) matches Some(access) ==> access.wire_text() == word,
{
}

/// Who may read, or write, a space.
#[derive(Debug, PartialEq)]
pub enum Policy {
    /// Everyone.
    Public,
    /// The members.
    MemberList,
    /// Whomever another service says.
    ManagingApp { managing_app: String },
}

/// What a [`Policy`] says.
#[verifier::ext_equal]
pub enum PolicyView {
    Public,
    MemberList,
    ManagingApp { managing_app: Seq<char> },
}

impl View for Policy {
    type V = PolicyView;

    open spec fn view(&self) -> PolicyView {
        match self {
            Policy::Public => PolicyView::Public,
            Policy::MemberList => PolicyView::MemberList,
            Policy::ManagingApp { managing_app } => PolicyView::ManagingApp {
                managing_app: managing_app@,
            },
        }
    }
}

impl Default for Policy {
    fn default() -> (policy: Policy)
        ensures
            policy == Policy::MemberList,
    {
        Policy::MemberList
    }
}

/// The policy that a tagged JSON object stands for, if this host implements it.
pub open spec fn policy_of_json(json: JsonView) -> Option<PolicyView> {
    match json.get_str("$type"@) {
        Some(tag) => if tag == "com.atproto.simplespace.defs#publicPolicy"@ {
            Some(PolicyView::Public)
        } else if tag == "com.atproto.simplespace.defs#memberListPolicy"@ {
            Some(PolicyView::MemberList)
        } else if tag == "com.atproto.simplespace.defs#managingAppPolicy"@ {
            match json.get_str("managingApp"@) {
                Some(app) => Some(PolicyView::ManagingApp { managing_app: app }),
                None => None,
            }
        } else {
            None
        },
        None => None,
    }
}

/// The JSON object that stands for a policy.
pub open spec fn json_of_policy(policy: PolicyView) -> JsonView {
    match policy {
        PolicyView::Public => JsonView::Object(
            seq![("$type"@, JsonView::Text("com.atproto.simplespace.defs#publicPolicy"@))],
        ),
        PolicyView::MemberList => JsonView::Object(
            seq![("$type"@, JsonView::Text("com.atproto.simplespace.defs#memberListPolicy"@))],
        ),
        PolicyView::ManagingApp { managing_app } => JsonView::Object(
            seq![
                ("$type"@, JsonView::Text("com.atproto.simplespace.defs#managingAppPolicy"@)),
                ("managingApp"@, JsonView::Text(managing_app)),
            ],
        ),
    }
}

impl Policy {
    /// Copies a policy.
    pub fn copy(&self) -> (copy: Policy)
        ensures
            copy == *self,
    {
        match self {
            Policy::Public => Policy::Public,
            Policy::MemberList => Policy::MemberList,
            Policy::ManagingApp { managing_app } => Policy::ManagingApp {
                managing_app: managing_app.clone(),
            },
        }
    }

    /// The managing app, if the policy has one.
    pub fn managing_app(&self) -> (app: Option<&str>)
        ensures
            match app {
                Some(a) => self@ == (PolicyView::ManagingApp { managing_app: a@ }),
                None => !(self@ is ManagingApp),
            },
    {
        match self {
            Policy::ManagingApp { managing_app } => Some(managing_app.as_str()),
            _ => None,
        }
    }

    /// Reads a policy, if this host implements it.
    pub fn from_json(json: &Json) -> (policy: Option<Policy>)
        ensures
            match policy {
                Some(p) => policy_of_json(json@) == Some(p@),
                None => policy_of_json(json@) is None,
            },
    {
        match json.get_str("$type") {
            Some(tag) => if text::same_text(tag, "com.atproto.simplespace.defs#publicPolicy") {
                Some(Policy::Public)
            } else if text::same_text(tag, "com.atproto.simplespace.defs#memberListPolicy") {
                Some(Policy::MemberList)
            } else if text::same_text(tag, "com.atproto.simplespace.defs#managingAppPolicy") {
                match json.get_str("managingApp") {
                    Some(app) => Some(Policy::ManagingApp { managing_app: app.to_owned() }),
                    None => None,
                }
            } else {
                None
            },
            None => None,
        }
    }

    /// Writes a policy.
    pub fn to_json(&self) -> (json: Json)
        ensures
            json@ == json_of_policy(self@),
    {
        let members: Vec<(String, Json)> = match self {
            Policy::Public => vec![
                (
                    "$type".to_owned(),
                    Json::Text("com.atproto.simplespace.defs#publicPolicy".to_owned()),
                ),
            ],
            Policy::MemberList => vec![
                (
                    "$type".to_owned(),
                    Json::Text("com.atproto.simplespace.defs#memberListPolicy".to_owned()),
                ),
            ],
            Policy::ManagingApp { managing_app } => vec![
                (
                    "$type".to_owned(),
                    Json::Text("com.atproto.simplespace.defs#managingAppPolicy".to_owned()),
                ),
                ("managingApp".to_owned(), Json::Text(managing_app.clone())),
            ],
        };
        let json = Json::Object(members);
        proof {
            crate::json::lemma_json_views(json);
            assert(json@->Object_0 =~= json_of_policy(self@)->Object_0);
        }
        json
    }
}

/// Reading a policy that was written gives the policy.
pub proof fn law_policy_json_round_trip(policy: PolicyView)
    ensures
        policy_of_json(json_of_policy(policy)) == Some(policy),
{
    reveal_with_fuel(crate::json::lookup, 3);
    reveal_strlit("$type");
    reveal_strlit("managingApp");
    reveal_strlit("com.atproto.simplespace.defs#publicPolicy");
    reveal_strlit("com.atproto.simplespace.defs#memberListPolicy");
    reveal_strlit("com.atproto.simplespace.defs#managingAppPolicy");
    assert("$type"@.len() != "managingApp"@.len());
    let members = json_of_policy(policy)->Object_0;
    match policy {
        PolicyView::ManagingApp { managing_app } => {
            assert(members.drop_last() =~= seq![members[0]]);
            assert(members.drop_last().drop_last() =~= Seq::empty());
            assert("com.atproto.simplespace.defs#managingAppPolicy"@.len()
                != "com.atproto.simplespace.defs#publicPolicy"@.len());
            assert("com.atproto.simplespace.defs#managingAppPolicy"@.len()
                != "com.atproto.simplespace.defs#memberListPolicy"@.len());
        },
        _ => {
            assert(members.drop_last() =~= Seq::empty());
            assert("com.atproto.simplespace.defs#memberListPolicy"@.len()
                != "com.atproto.simplespace.defs#publicPolicy"@.len());
        },
    }
}

/// Which applications may obtain credentials for a space.
#[derive(Debug, PartialEq)]
pub enum AppAccess {
    /// All of them.
    Open,
    /// Those that are listed, by client id.
    AllowList { allowed: Vec<String> },
}

/// What an [`AppAccess`] says.
#[verifier::ext_equal]
pub enum AppAccessView {
    Open,
    AllowList { allowed: Seq<Seq<char>> },
}

impl View for AppAccess {
    type V = AppAccessView;

    open spec fn view(&self) -> AppAccessView {
        match self {
            AppAccess::Open => AppAccessView::Open,
            AppAccess::AllowList { allowed } => AppAccessView::AllowList {
                allowed: text::texts(allowed@),
            },
        }
    }
}

impl Default for AppAccess {
    fn default() -> (access: AppAccess)
        ensures
            access == AppAccess::Open,
    {
        AppAccess::Open
    }
}

/// The texts of a JSON list that holds nothing else.
pub open spec fn text_list(items: Seq<JsonView>) -> Option<Seq<Seq<char>>> {
    if forall|i: int| 0 <= i < items.len() ==> (#[trigger] items[i]) is Text {
        Some(items.map_values(|v: JsonView| v->Text_0))
    } else {
        None
    }
}

/// The texts of a JSON list that holds nothing else.
pub fn read_text_list(items: &Vec<Json>) -> (list: Option<Vec<String>>)
    ensures
        match list {
            Some(l) => text_list(crate::json::json_views(items@)) == Some(text::texts(l@)),
            None => text_list(crate::json::json_views(items@)) is None,
        },
{
    let ghost views = crate::json::json_views(items@);
    let mut list: Vec<String> = Vec::new();
    for i in 0..items.len()
        invariant
            views == crate::json::json_views(items@),
            list@.len() == i,
            forall|j: int| 0 <= j < i ==> views[j] == JsonView::Text((#[trigger] list@[j])@),
    {
        match items[i].as_str() {
            Some(t) => {
                list.push(t.to_owned());
            },
            None => {
                assert(!(views[i as int] is Text));
                return None;
            },
        }
    }
    assert forall|j: int| 0 <= j < views.len() implies (#[trigger] views[j]) is Text by {
        assert(views[j] == JsonView::Text(list@[j]@));
    }
    assert(text::texts(list@) =~= views.map_values(|v: JsonView| v->Text_0));
    Some(list)
}

/// The access rule that a tagged JSON object stands for, if this host
/// implements it.
pub open spec fn app_access_of_json(json: JsonView) -> Option<AppAccessView> {
    match json.get_str("$type"@) {
        Some(tag) => if tag == "com.atproto.simplespace.defs#open"@ {
            Some(AppAccessView::Open)
        } else if tag == "com.atproto.simplespace.defs#allowList"@ {
            match json.get("allowed"@) {
                Some(JsonView::List(items)) => match text_list(items) {
                    Some(allowed) => Some(AppAccessView::AllowList { allowed }),
                    None => None,
                },
                _ => None,
            }
        } else {
            None
        },
        None => None,
    }
}

/// The JSON object that stands for an access rule.
pub open spec fn json_of_app_access(access: AppAccessView) -> JsonView {
    match access {
        AppAccessView::Open => JsonView::Object(
            seq![("$type"@, JsonView::Text("com.atproto.simplespace.defs#open"@))],
        ),
        AppAccessView::AllowList { allowed } => JsonView::Object(
            seq![
                ("$type"@, JsonView::Text("com.atproto.simplespace.defs#allowList"@)),
                ("allowed"@, JsonView::List(allowed.map_values(|t: Seq<char>| JsonView::Text(t)))),
            ],
        ),
    }
}

/// Makes a JSON list of texts.
pub fn json_text_list(list: &Vec<String>) -> (json: Json)
    ensures
        json@ == JsonView::List(
            text::texts(list@).map_values(|t: Seq<char>| JsonView::Text(t)),
        ),
{
    let mut items: Vec<Json> = Vec::new();
    for i in 0..list.len()
        invariant
            items@.len() == i,
            forall|j: int| 0 <= j < i ==> (#[trigger] items@[j])@ == JsonView::Text(list@[j]@),
    {
        items.push(Json::Text(list[i].clone()));
    }
    let json = Json::List(items);
    proof {
        crate::json::lemma_json_views(json);
        assert(json@->List_0 =~= text::texts(list@).map_values(|t: Seq<char>| JsonView::Text(t)));
    }
    json
}

impl AppAccess {
    /// Copies an access rule.
    pub fn copy(&self) -> (copy: AppAccess)
        ensures
            copy@ == self@,
    {
        match self {
            AppAccess::Open => AppAccess::Open,
            AppAccess::AllowList { allowed } => AppAccess::AllowList {
                allowed: text::clone_list(allowed),
            },
        }
    }

    /// Reads an access rule, if this host implements it.
    pub fn from_json(json: &Json) -> (access: Option<AppAccess>)
        ensures
            match access {
                Some(a) => app_access_of_json(json@) == Some(a@),
                None => app_access_of_json(json@) is None,
            },
    {
        match json.get_str("$type") {
            Some(tag) => if text::same_text(tag, "com.atproto.simplespace.defs#open") {
                Some(AppAccess::Open)
            } else if text::same_text(tag, "com.atproto.simplespace.defs#allowList") {
                match json.get("allowed") {
                    Some(value) => match value.as_list() {
                        Some(items) => match read_text_list(items) {
                            Some(allowed) => Some(AppAccess::AllowList { allowed }),
                            None => None,
                        },
                        None => None,
                    },
                    None => None,
                }
            } else {
                None
            },
            None => None,
        }
    }

    /// Writes an access rule.
    pub fn to_json(&self) -> (json: Json)
        ensures
            json@ == json_of_app_access(self@),
    {
        let members: Vec<(String, Json)> = match self {
            AppAccess::Open => vec![
                ("$type".to_owned(), Json::Text("com.atproto.simplespace.defs#open".to_owned())),
            ],
            AppAccess::AllowList { allowed } => vec![
                (
                    "$type".to_owned(),
                    Json::Text("com.atproto.simplespace.defs#allowList".to_owned()),
                ),
                ("allowed".to_owned(), json_text_list(allowed)),
            ],
        };
        let json = Json::Object(members);
        proof {
            crate::json::lemma_json_views(json);
            assert(json@->Object_0 =~= json_of_app_access(self@)->Object_0);
        }
        json
    }
}

/// Reading an access rule that was written gives the rule.
pub proof fn law_app_access_json_round_trip(access: AppAccessView)
    ensures
        app_access_of_json(json_of_app_access(access)) == Some(access),
{
    reveal_with_fuel(crate::json::lookup, 3);
    reveal_strlit("$type");
    reveal_strlit("allowed");
    reveal_strlit("com.atproto.simplespace.defs#open");
    reveal_strlit("com.atproto.simplespace.defs#allowList");
    assert("$type"@.len() != "allowed"@.len());
    assert("com.atproto.simplespace.defs#open"@.len()
        != "com.atproto.simplespace.defs#allowList"@.len());
    let members = json_of_app_access(access)->Object_0;
    match access {
        AppAccessView::AllowList { allowed } => {
            assert(members.drop_last() =~= seq![members[0]]);
            assert(members.drop_last().drop_last() =~= Seq::empty());
            let items = allowed.map_values(|t: Seq<char>| JsonView::Text(t));
            assert(items.map_values(|v: JsonView| v->Text_0) =~= allowed);
        },
        AppAccessView::Open => {
            assert(members.drop_last() =~= Seq::empty());
        },
    }
}

/// What a space's owner configures beyond its policies.
#[derive(Debug, PartialEq)]
pub struct SpaceConfig {
    pub membership_public: bool,
    pub records_public: bool,
    /// Whatever else was given, by key.
    pub extra: Vec<(String, Json)>,
}

impl Default for SpaceConfig {
    fn default() -> (config: SpaceConfig)
        ensures
            !config.membership_public,
            !config.records_public,
            config.extra@.len() == 0,
    {
        SpaceConfig { membership_public: false, records_public: false, extra: Vec::new() }
    }
}

/// The value that a space's configuration holds under a key.
pub open spec fn extra_value(config: SpaceConfig, key: Seq<char>) -> Option<JsonView> {
    crate::json::lookup(crate::json::member_views(config.extra@), key)
}

/// What a flag of a space's configuration says: nothing is no, and anything but
/// a truth value is an error.
pub open spec fn flag_of(members: Seq<(Seq<char>, JsonView)>, key: Seq<char>) -> Option<bool> {
    match crate::json::lookup(members, key) {
        None => Some(false),
        Some(value) => value.as_bool(),
    }
}

/// The members of a configuration but for the flags.
pub open spec fn beyond_flags(members: Seq<(Seq<char>, JsonView)>) -> Seq<(Seq<char>, JsonView)>
    decreases members.len(),
{
    if members.len() == 0 {
        Seq::empty()
    } else {
        let head = beyond_flags(members.drop_last());
        if members.last().0 == "membership_public"@ || members.last().0 == "records_public"@ {
            head
        } else {
            head.push(members.last())
        }
    }
}

/// What is not a flag is kept: under any other key, a configuration holds what
/// was given.
pub proof fn law_config_keeps_the_rest(members: Seq<(Seq<char>, JsonView)>, key: Seq<char>)
    requires
        key != "membership_public"@,
        key != "records_public"@,
    ensures
        crate::json::lookup(beyond_flags(members), key) == crate::json::lookup(members, key),
    decreases members.len(),
{
    if members.len() > 0 {
        law_config_keeps_the_rest(members.drop_last(), key);
        let head = beyond_flags(members.drop_last());
        assert(head.push(members.last()).drop_last() =~= head);
    }
}

fn read_flag(members: &Vec<(String, Json)>, key: &str) -> (flag: Option<bool>)
    ensures
        flag == flag_of(crate::json::member_views(members@), key@),
{
    match crate::json::find_member(members, key) {
        None => Some(false),
        Some(value) => value.as_bool(),
    }
}

impl SpaceConfig {
    /// Reads a configuration: an object of two flags, and of anything else.
    pub fn from_json(json: Json) -> (config: Option<SpaceConfig>)
        ensures
            match config {
                Some(c) => json@ matches JsonView::Object(members) && flag_of(
                    members,
                    "membership_public"@,
                ) == Some(c.membership_public) && flag_of(members, "records_public"@) == Some(
                    c.records_public,
                ) && crate::json::member_views(c.extra@) == beyond_flags(members),
                None => json@ matches JsonView::Object(members) ==> flag_of(
                    members,
                    "membership_public"@,
                ) is None || flag_of(members, "records_public"@) is None,
            },
    {
        proof {
            crate::json::lemma_json_views(json);
        }
        let members = match json {
            Json::Object(members) => members,
            _ => {
                return None;
            },
        };
        let (membership_public, records_public) = match (
            read_flag(&members, "membership_public"),
            read_flag(&members, "records_public"),
        ) {
            (Some(a), Some(b)) => (a, b),
            _ => {
                return None;
            },
        };
        let ghost views = crate::json::member_views(members@);
        let mut extra: Vec<(String, Json)> = Vec::new();
        assert(crate::json::member_views(extra@) =~= beyond_flags(views.take(0)));
        for i in 0..members.len()
            invariant
                views == crate::json::member_views(members@),
                crate::json::member_views(extra@) == beyond_flags(views.take(i as int)),
        {
            let ghost before = crate::json::member_views(extra@);
            assert(views.take(i + 1).drop_last() =~= views.take(i as int));
            assert(views.take(i + 1).last() == views[i as int]);
            let key = members[i].0.as_str();
            if !text::same_text(key, "membership_public") && !text::same_text(key, "records_public") {
                extra.push((members[i].0.clone(), members[i].1.copy()));
                assert(crate::json::member_views(extra@) =~= before.push(views[i as int]));
            }
        }
        assert(views.take(views.len() as int) =~= views);
        Some(SpaceConfig { membership_public, records_public, extra })
    }

    /// The value held under a key.
    pub fn get_extra(&self, key: &str) -> (value: Option<&Json>)
        ensures
            match value {
                Some(v) => extra_value(*self, key@) == Some(v@),
                None => extra_value(*self, key@) is None,
            },
    {
        crate::json::find_member(&self.extra, key)
    }
}

/// A space.
#[derive(Debug)]
pub struct Space {
    pub id: String,
    pub did: String,
    pub authority_did: String,
    pub creator_did: String,
    pub type_nsid: String,
    pub skey: String,
    pub display_name: Option<String>,
    pub description: Option<String>,
    pub read_policy: Policy,
    pub write_policy: Policy,
    pub app_access: AppAccess,
    pub config: SpaceConfig,
    pub revision: Option<String>,
    pub created_at: String,
    pub updated_at: String,
}

impl Space {
    /// Copies a space.
    pub fn copy(&self) -> (copy: Space)
        ensures
            copy.id == self.id,
            copy.did == self.did,
            copy.authority_did == self.authority_did,
            copy.creator_did == self.creator_did,
            copy.type_nsid == self.type_nsid,
            copy.skey == self.skey,
            copy.display_name == self.display_name,
            copy.description == self.description,
            copy.read_policy@ == self.read_policy@,
            copy.write_policy@ == self.write_policy@,
            copy.app_access@ == self.app_access@,
            copy.config.membership_public == self.config.membership_public,
            copy.config.records_public == self.config.records_public,
            crate::json::member_views(copy.config.extra@) == crate::json::member_views(
                self.config.extra@,
            ),
            copy.revision == self.revision,
            copy.created_at == self.created_at,
            copy.updated_at == self.updated_at,
    {
        let mut extra: Vec<(String, Json)> = Vec::new();
        for i in 0..self.config.extra.len()
            invariant
                extra@.len() == i,
                forall|j: int|
                    0 <= j < i ==> (#[trigger] extra@[j]).0@ == self.config.extra@[j].0@ && extra@[j].1@
                        == self.config.extra@[j].1@,
        {
            let (key, value) = &self.config.extra[i];
            extra.push((key.clone(), value.copy()));
        }
        assert(crate::json::member_views(extra@) =~= crate::json::member_views(self.config.extra@));
        Space {
            id: self.id.clone(),
            did: self.did.clone(),
            authority_did: self.authority_did.clone(),
            creator_did: self.creator_did.clone(),
            type_nsid: self.type_nsid.clone(),
            skey: self.skey.clone(),
            display_name: text::clone_opt(&self.display_name),
            description: text::clone_opt(&self.description),
            read_policy: self.read_policy.copy(),
            write_policy: self.write_policy.copy(),
            app_access: self.app_access.copy(),
            config: SpaceConfig {
                membership_public: self.config.membership_public,
                records_public: self.config.records_public,
                extra,
            },
            revision: text::clone_opt(&self.revision),
            created_at: self.created_at.clone(),
            updated_at: self.updated_at.clone(),
        }
    }
}

/// A member of a space, or a space whose members are members.
#[derive(Debug)]
pub struct SpaceMember {
    pub id: String,
    pub space_id: String,
    pub did: String,
    pub access: MemberAccess,
    pub is_delegation: bool,
    pub granted_by: Option<String>,
    pub created_at: String,
}

/// A member, with what all the ways of being one permit.
#[derive(Debug)]
pub struct ResolvedMember {
    pub did: String,
    pub access: MemberAccess,
}

/// A record in a space.
#[derive(Debug)]
pub struct SpaceRecord {
    pub uri: String,
    pub space_id: String,
    pub author_did: String,
    pub collection: String,
    pub rkey: String,
    pub record: Json,
    pub cid: String,
    pub indexed_at: String,
}

/// What a [`SpaceRecord`] holds.
#[verifier::ext_equal]
pub struct RecordView {
    pub uri: Seq<char>,
    pub space_id: Seq<char>,
    pub author_did: Seq<char>,
    pub collection: Seq<char>,
    pub rkey: Seq<char>,
    pub record: JsonView,
    pub cid: Seq<char>,
    pub indexed_at: Seq<char>,
}

impl View for SpaceRecord {
    type V = RecordView;

    open spec fn view(&self) -> RecordView {
        RecordView {
            uri: self.uri@,
            space_id: self.space_id@,
            author_did: self.author_did@,
            collection: self.collection@,
            rkey: self.rkey@,
            record: self.record@,
            cid: self.cid@,
            indexed_at: self.indexed_at@,
        }
    }
}

/// What was done to a record.
#[derive(Debug, Clone, Copy, PartialEq, Eq, Structural)]
pub enum OplogAction {
    Create,
    Update,
    Delete,
}

impl OplogAction {
    /// The word for an action.
    pub open spec fn text(self) -> Seq<char> {
        match self {
            OplogAction::Create => "create"@,
            OplogAction::Update => "update"@,
            OplogAction::Delete => "delete"@,
        }
    }

    /// The action that a word stands for.
    pub open spec fn of_text(word: Seq<char>) -> Option<OplogAction> {
        if word == "create"@ {
            Some(OplogAction::Create)
        } else if word == "update"@ {
            Some(OplogAction::Update)
        } else if word == "delete"@ {
            Some(OplogAction::Delete)
        } else {
            None
        }
    }

    /// The action that a word stands for.
    pub fn parse(word: &str) -> (action: Option<OplogAction>)
        ensures
            action == OplogAction::of_text(word@),
    {
        if text::same_text(word, "create") {
            Some(OplogAction::Create)
        } else if text::same_text(word, "update") {
            Some(OplogAction::Update)
        } else if text::same_text(word, "delete") {
            Some(OplogAction::Delete)
        } else {
            None
        }
    }

    /// The word for an action.
    pub fn as_str(self) -> (word: &'static str)
        ensures
            word@ == self.text(),
    {
        match self {
            OplogAction::Create => "create",
            OplogAction::Update => "update",
            OplogAction::Delete => "delete",
        }
    }
}

/// Reading the word for an action gives the action.
pub proof fn law_action_word_round_trip(action: OplogAction)
    ensures
        OplogAction::of_text(action.text()) == Some(action),
{
    reveal_strlit("create");
    reveal_strlit("update");
    reveal_strlit("delete");
    assert("create"@[0] == 'c' && "update"@[0] == 'u' && "delete"@[0] == 'd');
}

/// One entry of a repo's operation log.
#[derive(Debug)]
pub struct OplogEntry {
    pub id: String,
    pub space_id: String,
    pub author_did: String,
    pub rev: String,
    pub idx: i32,
    pub action: OplogAction,
    pub collection: String,
    pub rkey: String,
    pub cid: Option<String>,
    pub prev: Option<String>,
    pub value: Option<Json>,
    pub created_at: String,
}

/// What is known of one author's repo in a space.
#[derive(Debug)]
pub struct RepoState {
    pub space_id: String,
    pub author_did: String,
    /// The state of the set hash over the repo's records.
    pub lthash_state: Vec<u8>,
    pub rev: Option<String>,
    pub hash: Option<Vec<u8>>,
    pub ikm: Option<Vec<u8>>,
    pub sig: Option<Vec<u8>>,
    pub mac: Option<Vec<u8>>,
    pub host_mode: HostMode,
    /// The last revision applied from the repo's host.
    pub sync_cursor: Option<String>,
}

/// An invitation to a space.
#[derive(Debug)]
pub struct SpaceInvite {
    pub id: String,
    pub space_id: String,
    pub token_hash: String,
    pub created_by: String,
    pub access: MemberAccess,
    pub max_uses: Option<i64>,
    pub uses: i64,
    pub expires_at: Option<String>,
    pub revoked: bool,
    pub created_at: String,
}

proof fn lemma_access_words()
    ensures
        "write"@ != "read"@ && "write"@ != "read_self"@ && "write"@ != "none"@,
        "read"@ != "read_self"@ && "read"@ != "none"@ && "read_self"@ != "none"@,
{
    reveal_strlit("write");
    reveal_strlit("read");
    reveal_strlit("read_self");
    reveal_strlit("none");
    assert("write"@.len() == 5 && "read"@.len() == 4 && "read_self"@.len() == 9 && "none"@.len() == 4);
    assert("read"@[0] == 'r' && "none"@[0] == 'n');
}

/// Each grant has one word: `write` for whoever may write, and for the others
/// `read`, `read_self` or `none` by what they may read. A word is read as a grant of
/// just that, where writing goes with reading everything, and any other word is
/// refused.
pub proof fn law_words_grant_what_they_say(access: MemberAccess, word: Seq<char>)
    ensures
        access.wire_text() == "write"@ <==> access.write,
        access.wire_text() == "read"@ <==> !access.write && access.read && !access.read_self,
        access.wire_text() == "read_self"@ <==> !access.write && access.read && access.read_self,
        access.wire_text() == "none"@ <==> !access.write && !access.read,
        MemberAccess::of_wire(word) is Some <==> word == "write"@ || word == "read"@ || word == "read_self"@
            || word == "none"@,
        MemberAccess::of_wire(word) matches Some(granted) ==> (granted.write ==> granted.read
            && !granted.read_self) && (granted.read_self ==> granted.read),
{
    lemma_access_words();
}

proof fn lemma_policy_tags()
    ensures
        "com.atproto.simplespace.defs#publicPolicy"@ != "com.atproto.simplespace.defs#memberListPolicy"@,
        "com.atproto.simplespace.defs#publicPolicy"@ != "com.atproto.simplespace.defs#managingAppPolicy"@,
        "com.atproto.simplespace.defs#memberListPolicy"@ != "com.atproto.simplespace.defs#managingAppPolicy"@,
        "com.atproto.simplespace.defs#open"@ != "com.atproto.simplespace.defs#allowList"@,
{
    reveal_strlit("com.atproto.simplespace.defs#publicPolicy");
    reveal_strlit("com.atproto.simplespace.defs#memberListPolicy");
    reveal_strlit("com.atproto.simplespace.defs#managingAppPolicy");
    reveal_strlit("com.atproto.simplespace.defs#open");
    reveal_strlit("com.atproto.simplespace.defs#allowList");
    assert("com.atproto.simplespace.defs#publicPolicy"@.len() == 41);
    assert("com.atproto.simplespace.defs#memberListPolicy"@.len() == 45);
    assert("com.atproto.simplespace.defs#managingAppPolicy"@.len() == 46);
    assert("com.atproto.simplespace.defs#open"@.len() == 33);
    assert("com.atproto.simplespace.defs#allowList"@.len() == 38);
}

/// A policy is told by the type that its object names, and a managing app's by the
/// app that it names too. Whatever names no such type is no policy.
pub proof fn law_policies_are_told_by_their_type(json: JsonView, app: Seq<char>)
    ensures
        policy_of_json(json) == Some(PolicyView::Public) <==> json.get_str("$type"@) == Some(
            "com.atproto.simplespace.defs#publicPolicy"@,
        ),
        policy_of_json(json) == Some(PolicyView::MemberList) <==> json.get_str("$type"@) == Some(
            "com.atproto.simplespace.defs#memberListPolicy"@,
        ),
        policy_of_json(json) == Some((PolicyView::ManagingApp { managing_app: app })) <==> json.get_str(
            "$type"@,
        ) == Some("com.atproto.simplespace.defs#managingAppPolicy"@) && json.get_str("managingApp"@) == Some(
            app,
        ),
{
    lemma_policy_tags();
}

/// What applications a space admits is told by the type that the object names, and
/// an allow list lists just the texts of its member `allowed`. One that lists
/// anything but texts, or names no such type, is refused.
pub proof fn law_app_access_is_told_by_its_type(json: JsonView, allowed: Seq<Seq<char>>)
    ensures
        app_access_of_json(json) == Some(AppAccessView::Open) <==> json.get_str("$type"@) == Some(
            "com.atproto.simplespace.defs#open"@,
        ),
        app_access_of_json(json) == Some((AppAccessView::AllowList { allowed })) <==> {
            &&& json.get_str("$type"@) == Some("com.atproto.simplespace.defs#allowList"@)
            &&& json.get("allowed"@) matches Some(JsonView::List(items))
            &&& items.len() == allowed.len()
            &&& forall|i: int| 0 <= i < items.len() ==> (#[trigger] items[i]) == JsonView::Text(allowed[i])
        },
{
    lemma_policy_tags();
    if let Some(JsonView::List(items)) = json.get("allowed"@) {
        if items.len() == allowed.len() && (forall|i: int|
            0 <= i < items.len() ==> (#[trigger] items[i]) == JsonView::Text(allowed[i])) {
            assert(items.map_values(|v: JsonView| v->Text_0) =~= allowed);
        }
        if text_list(items) == Some(allowed) {
            assert forall|i: int| 0 <= i < items.len() implies (#[trigger] items[i]) == JsonView::Text(
                allowed[i],
            ) by {
                assert(items[i] is Text);
            }
        }
    }
}

/// A flag that is not there is off, one that is there must be a truth value, and
/// the flags are not among what is kept beside them.
pub proof fn law_flags_are_off_unless_set(members: Seq<(Seq<char>, JsonView)>, key: Seq<char>)
    ensures
        flag_of(members, key) == Some(true) <==> crate::json::lookup(members, key) == Some(
            JsonView::Bool(true),
        ),
        flag_of(members, key) == Some(false) <==> crate::json::lookup(members, key) is None
            || crate::json::lookup(members, key) == Some(JsonView::Bool(false)),
        crate::json::lookup(beyond_flags(members), "membership_public"@) is None,
        crate::json::lookup(beyond_flags(members), "records_public"@) is None,
    decreases members.len(),
{
    if members.len() > 0 {
        law_flags_are_off_unless_set(members.drop_last(), key);
        let head = beyond_flags(members.drop_last());
        if members.last().0 != "membership_public"@ && members.last().0 != "records_public"@ {
            assert(head.push(members.last()).drop_last() =~= head);
        }
    }
}

/// Each action has its word, and only those words are actions.
pub proof fn law_actions_have_their_words(action: OplogAction, word: Seq<char>)
    ensures
        action.text() == "create"@ <==> action == OplogAction::Create,
        action.text() == "update"@ <==> action == OplogAction::Update,
        action.text() == "delete"@ <==> action == OplogAction::Delete,
        OplogAction::of_text(word) == Some(action) <==> word == action.text(),
        OplogAction::of_text(word) is None <==> word != "create"@ && word != "update"@ && word != "delete"@,
{
    reveal_strlit("create");
    reveal_strlit("update");
    reveal_strlit("delete");
    assert("create"@[0] == 'c' && "update"@[0] == 'u' && "delete"@[0] == 'd');
}

} // verus!
