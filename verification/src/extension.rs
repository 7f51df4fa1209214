//! Stable product-level contracts for bundled features and external extensions.

use vstd::prelude::*;
use crate::text::{str_len, utf8, push_text};

verus! {

/// Longest identifier, in bytes.
pub const MAX_IDENTIFIER_LEN: usize = 128;

/// A character allowed after the first one: lowercase ASCII letter, digit, `.`, `-` or `_`.
pub open spec fn id_char_ok(c: char) -> bool {
    ('a' <= c && c <= 'z') || ('0' <= c && c <= '9') || c == '.' || c == '-' || c == '_'
}

/// A character allowed first: lowercase ASCII letter or digit.
pub open spec fn id_start_ok(c: char) -> bool {
    ('a' <= c && c <= 'z') || ('0' <= c && c <= '9')
}

/// Identifiers are 1 to 128 bytes of lowercase ASCII letters, digits, `.`, `-` and `_`,
/// starting with a letter or digit.
pub open spec fn valid_identifier(s: Seq<char>) -> bool {
    &&& 0 < utf8(s).len() <= MAX_IDENTIFIER_LEN
    &&& id_start_ok(s[0])
    &&& forall|i: int| 1 <= i < s.len() ==> id_char_ok(#[trigger] s[i])
}

/// Error returned for unstable or malformed public identifiers.
#[derive(Clone, Debug, PartialEq, Eq)]
pub struct IdentifierError {
    value: String,
}

impl IdentifierError {
    /// The rejected identifier, as text.
    pub closed spec fn spec_value(&self) -> Seq<char> {
        self.value@
    }

    /// The rejected identifier.
    pub fn value(&self) -> (v: &str)
        ensures
            v@ == self.spec_value(),
    {
        self.value.as_str()
    }
}

/// Checks an identifier against the stable identifier grammar.
fn validate_identifier(value: &str) -> (r: Result<(), IdentifierError>)
    ensures
        r is Ok <==> valid_identifier(value@),
        r matches Err(e) ==> e.spec_value() == value@,
{
    let byte_len = str_len(value);
    let valid_length = byte_len > 0 && byte_len <= MAX_IDENTIFIER_LEN;
    if !valid_length {
        return Err(IdentifierError { value: value.to_owned() });
    }
    let n = value.unicode_len();
    proof {
        if value@.len() == 0 {
            assert(utf8(value@) =~= Seq::<u8>::empty());
        }
    }
    let first = value.get_char(0);
    if !((first >= 'a' && first <= 'z') || (first >= '0' && first <= '9')) {
        return Err(IdentifierError { value: value.to_owned() });
    }
    let mut i: usize = 1;
    while i < n
        invariant
            n == value@.len(),
            1 <= i <= n,
            forall|j: int| 1 <= j < i ==> id_char_ok(#[trigger] value@[j]),
        decreases n - i,
    {
        let c = value.get_char(i);
        if !((c >= 'a' && c <= 'z') || (c >= '0' && c <= '9') || c == '.' || c == '-' || c == '_') {
            return Err(IdentifierError { value: value.to_owned() });
        }
        i = i + 1;
    }
    Ok(())
}

/// Stable identifier for a product feature or extension.
#[derive(Clone, Debug, PartialEq, Eq, PartialOrd, Ord, Hash)]
pub struct FeatureId(String);

impl View for FeatureId {
    type V = Seq<char>;

    closed spec fn view(&self) -> Seq<char> {
        self.0@
    }
}

impl FeatureId {
    /// Creates a validated feature identifier.
    pub fn new(value: &str) -> (r: Result<Self, IdentifierError>)
        ensures
            r is Ok <==> valid_identifier(value@),
            r matches Ok(id) ==> id@ == value@,
            r matches Err(e) ==> e.spec_value() == value@,
    {
        match validate_identifier(value) {
            Err(e) => Err(e),
            Ok(()) => Ok(FeatureId(value.to_owned())),
        }
    }

    /// Returns the identifier as text.
    pub fn as_str(&self) -> (s: &str)
        ensures
            s@ == self@,
    {
        self.0.as_str()
    }

    /// A copy of this identifier.
    pub fn duplicate(&self) -> (r: Self)
        ensures
            r@ == self@,
    {
        FeatureId(self.0.clone())
    }

    /// Whether two identifiers are the same.
    pub fn same(&self, other: &Self) -> (b: bool)
        ensures
            b == (self@ == other@),
    {
        self.0 == other.0
    }

    /// Whether this identifier orders strictly before `other` (byte-wise, as `Ord` does).
    pub fn precedes(&self, other: &Self) -> (b: bool)
        ensures
            b == bytes_precede(utf8(self@), utf8(other@)),
    {
        str_precedes(self.0.as_str(), other.0.as_str())
    }
}

/// Stable identifier for a replaceable product service.
#[derive(Clone, Debug, PartialEq, Eq, PartialOrd, Ord, Hash)]
pub struct ServiceId(String);

impl View for ServiceId {
    type V = Seq<char>;

    closed spec fn view(&self) -> Seq<char> {
        self.0@
    }
}

impl ServiceId {
    /// Creates a validated service identifier.
    pub fn new(value: &str) -> (r: Result<Self, IdentifierError>)
        ensures
            r is Ok <==> valid_identifier(value@),
            r matches Ok(id) ==> id@ == value@,
            r matches Err(e) ==> e.spec_value() == value@,
    {
        match validate_identifier(value) {
            Err(e) => Err(e),
            Ok(()) => Ok(ServiceId(value.to_owned())),
        }
    }

    /// Returns the identifier as text.
    pub fn as_str(&self) -> (s: &str)
        ensures
            s@ == self@,
    {
        self.0.as_str()
    }

    /// A copy of this identifier.
    pub fn duplicate(&self) -> (r: Self)
        ensures
            r@ == self@,
    {
        ServiceId(self.0.clone())
    }

    /// Whether two identifiers are the same.
    pub fn same(&self, other: &Self) -> (b: bool)
        ensures
            b == (self@ == other@),
    {
        self.0 == other.0
    }

    /// Whether this identifier orders strictly before `other` (byte-wise, as `Ord` does).
    pub fn precedes(&self, other: &Self) -> (b: bool)
        ensures
            b == bytes_precede(utf8(self@), utf8(other@)),
    {
        str_precedes(self.0.as_str(), other.0.as_str())
    }
}

/// The identifier grammar, spelled out: an identifier is accepted exactly when it is 1 to
/// 128 bytes long, starts with a lowercase ASCII letter or a digit, and every later
/// character is a lowercase ASCII letter, a digit, `.`, `-` or `_`.
pub proof fn law_identifier_grammar(s: Seq<char>)
    ensures
        valid_identifier(s) <==> {
            &&& 1 <= utf8(s).len() <= 128
            &&& (('a' <= s[0] && s[0] <= 'z') || ('0' <= s[0] && s[0] <= '9'))
            &&& forall|i: int| 1 <= i < s.len() ==> {
                let c = #[trigger] s[i];
                ||| ('a' <= c && c <= 'z')
                ||| ('0' <= c && c <= '9')
                ||| c == '.'
                ||| c == '-'
                ||| c == '_'
            }
        },
{
}

/// Every admissible later character may follow an accepted identifier: appending a
/// lowercase letter, a digit, `.`, `-` or `_` keeps it accepted while it stays within 128
/// bytes.
pub proof fn law_identifier_extends(s: Seq<char>, c: char)
    requires
        valid_identifier(s),
        ('a' <= c && c <= 'z') || ('0' <= c && c <= '9') || c == '.' || c == '-' || c == '_',
        utf8(s.push(c)).len() <= 128,
    ensures
        valid_identifier(s.push(c)),
{
    crate::text::lemma_utf8_concat(s, seq![c]);
    assert(s.push(c) =~= s + seq![c]);
    assert forall|i: int| 1 <= i < s.push(c).len() implies id_char_ok(#[trigger] s.push(c)[i]) by {
        if i < s.len() {
            assert(s.push(c)[i] == s[i]);
        }
    }
}

/// Strict lexicographic order of byte sequences: the first differing byte decides, and a
/// proper prefix orders first.
pub open spec fn bytes_precede(x: Seq<u8>, y: Seq<u8>) -> bool
    decreases x.len(),
{
    if x.len() == 0 {
        y.len() > 0
    } else if y.len() == 0 {
        false
    } else if x[0] != y[0] {
        x[0] < y[0]
    } else {
        bytes_precede(x.drop_first(), y.drop_first())
    }
}

/// Byte-wise lexicographic order of two strings.
fn str_precedes(a: &str, b: &str) -> (r: bool)
    ensures
        r == bytes_precede(utf8(a@), utf8(b@)),
{
    let x = a.as_bytes();
    let y = b.as_bytes();
    proof {
        assert(x@ == utf8(a@));
        assert(y@ == utf8(b@));
        assert(x@.skip(0) =~= x@);
        assert(y@.skip(0) =~= y@);
    }
    let mut i: usize = 0;
    while i < x.len() && i < y.len()
        invariant
            0 <= i <= x@.len(),
            i <= y@.len(),
            x@ == utf8(a@),
            y@ == utf8(b@),
            bytes_precede(x@, y@) == bytes_precede(x@.skip(i as int), y@.skip(i as int)),
        decreases x.len() - i,
    {
        proof {
            assert(x@.skip(i as int)[0] == x@[i as int]);
            assert(y@.skip(i as int)[0] == y@[i as int]);
        }
        if x[i] != y[i] {
            proof {
                assert(x@.skip(i as int).len() > 0 && y@.skip(i as int).len() > 0);
                assert(bytes_precede(x@.skip(i as int), y@.skip(i as int)) == (x@[i as int] < y@[i as int]));
            }
            return x[i] < y[i];
        }
        proof {
            assert(x@.skip(i as int).drop_first() =~= x@.skip(i + 1));
            assert(y@.skip(i as int).drop_first() =~= y@.skip(i + 1));
        }
        i = i + 1;
    }
    x.len() < y.len()
}

/// The views of a sequence of feature identifiers.
pub open spec fn feature_ids(v: Seq<FeatureId>) -> Seq<Seq<char>> {
    v.map_values(|f: FeatureId| f@)
}

/// The views of a sequence of service identifiers.
pub open spec fn service_ids(v: Seq<ServiceId>) -> Seq<Seq<char>> {
    v.map_values(|s: ServiceId| s@)
}

/// Adds `id` to a duplicate-free identifier list (kept in identifier order); `true` when it
/// was not there before.
pub fn insert_feature(v: &mut Vec<FeatureId>, id: FeatureId) -> (inserted: bool)
    requires
        feature_ids(old(v)@).no_duplicates(),
    ensures
        feature_ids(final(v)@).no_duplicates(),
        feature_ids(final(v)@).to_set() == feature_ids(old(v)@).to_set().insert(id@),
        inserted == !feature_ids(old(v)@).contains(id@),
        inserted ==> final(v)@.len() == old(v)@.len() + 1,
        !inserted ==> final(v)@ == old(v)@,
{
    let mut k: usize = 0;
    while k < v.len()
        invariant
            0 <= k <= v@.len(),
            v@ == old(v)@,
            feature_ids(old(v)@).no_duplicates(),
            forall|j: int| 0 <= j < k ==> (#[trigger] v@[j])@ != id@,
        decreases v@.len() - k,
    {
        if v[k].same(&id) {
            proof {
                assert(feature_ids(v@)[k as int] == id@);
                assert(feature_ids(v@).to_set() =~= feature_ids(v@).to_set().insert(id@));
            }
            return false;
        }
        k = k + 1;
    }
    proof {
        if feature_ids(old(v)@).contains(id@) {
            let j = choose|j: int| 0 <= j < feature_ids(old(v)@).len() && feature_ids(old(v)@)[j] == id@;
            assert(old(v)@[j]@ == id@);
        }
    }
    let mut i: usize = 0;
    while i < v.len()
        invariant
            0 <= i <= v@.len(),
            v@ == old(v)@,
        decreases v@.len() - i,
    {
        if id.precedes(&v[i]) {
            break;
        }
        i = i + 1;
    }
    let ghost before = v@;
    v.insert(i, id);
    proof {
        assert(feature_ids(v@) =~= feature_ids(before).subrange(0, i as int).push(id@).add(
            feature_ids(before).subrange(i as int, before.len() as int)));
        assert(feature_ids(v@).to_set() =~= feature_ids(before).to_set().insert(id@)) by {
            assert forall|x: Seq<char>| feature_ids(v@).to_set().contains(x) implies feature_ids(before).to_set().insert(id@).contains(x) by {
                let k = choose|k: int| 0 <= k < feature_ids(v@).len() && feature_ids(v@)[k] == x;
                if k < i {
                    assert(feature_ids(before)[k] == x);
                } else if k > i {
                    assert(feature_ids(before)[k - 1] == x);
                }
            }
            assert forall|x: Seq<char>| feature_ids(before).to_set().insert(id@).contains(x) implies feature_ids(v@).to_set().contains(x) by {
                if x == id@ {
                    assert(feature_ids(v@)[i as int] == x);
                } else {
                    let k = choose|k: int| 0 <= k < feature_ids(before).len() && feature_ids(before)[k] == x;
                    if k < i {
                        assert(feature_ids(v@)[k] == x);
                    } else {
                        assert(feature_ids(v@)[k + 1] == x);
                    }
                }
            }
        }
        assert forall|a: int, b: int| 0 <= a < feature_ids(v@).len() && 0 <= b < feature_ids(v@).len() && a != b
            implies feature_ids(v@)[a] != feature_ids(v@)[b] by {
            if a != i && b != i {
                let fa = if a < i { a } else { a - 1 };
                let fb = if b < i { b } else { b - 1 };
                assert(feature_ids(before)[fa] == feature_ids(v@)[a]);
                assert(feature_ids(before)[fb] == feature_ids(v@)[b]);
            } else if a == i {
                let fb = if b < i { b } else { b - 1 };
                assert(feature_ids(before)[fb] == feature_ids(v@)[b]);
                assert(before[fb]@ != id@);
            } else {
                let fa = if a < i { a } else { a - 1 };
                assert(feature_ids(before)[fa] == feature_ids(v@)[a]);
                assert(before[fa]@ != id@);
            }
        }
    }
    true
}

/// Adds `id` to a duplicate-free service list (kept in identifier order).
pub fn insert_service(v: &mut Vec<ServiceId>, id: ServiceId)
    requires
        service_ids(old(v)@).no_duplicates(),
    ensures
        service_ids(final(v)@).no_duplicates(),
        service_ids(final(v)@).to_set() == service_ids(old(v)@).to_set().insert(id@),
{
    let mut k: usize = 0;
    while k < v.len()
        invariant
            0 <= k <= v@.len(),
            v@ == old(v)@,
            service_ids(old(v)@).no_duplicates(),
            forall|j: int| 0 <= j < k ==> (#[trigger] v@[j])@ != id@,
        decreases v@.len() - k,
    {
        if v[k].same(&id) {
            proof {
                assert(service_ids(v@)[k as int] == id@);
                assert(service_ids(v@).to_set() =~= service_ids(v@).to_set().insert(id@));
            }
            return;
        }
        k = k + 1;
    }
    proof {
        if service_ids(old(v)@).contains(id@) {
            let j = choose|j: int| 0 <= j < service_ids(old(v)@).len() && service_ids(old(v)@)[j] == id@;
            assert(old(v)@[j]@ == id@);
        }
    }
    let mut i: usize = 0;
    while i < v.len()
        invariant
            0 <= i <= v@.len(),
            v@ == old(v)@,
        decreases v@.len() - i,
    {
        if id.precedes(&v[i]) {
            break;
        }
        i = i + 1;
    }
    let ghost before = v@;
    v.insert(i, id);
    proof {
        assert(service_ids(v@) =~= service_ids(before).subrange(0, i as int).push(id@).add(
            service_ids(before).subrange(i as int, before.len() as int)));
        assert(service_ids(v@).to_set() =~= service_ids(before).to_set().insert(id@)) by {
            assert forall|x: Seq<char>| service_ids(v@).to_set().contains(x) implies service_ids(before).to_set().insert(id@).contains(x) by {
                let k = choose|k: int| 0 <= k < service_ids(v@).len() && service_ids(v@)[k] == x;
                if k < i {
                    assert(service_ids(before)[k] == x);
                } else if k > i {
                    assert(service_ids(before)[k - 1] == x);
                }
            }
            assert forall|x: Seq<char>| service_ids(before).to_set().insert(id@).contains(x) implies service_ids(v@).to_set().contains(x) by {
                if x == id@ {
                    assert(service_ids(v@)[i as int] == x);
                } else {
                    let k = choose|k: int| 0 <= k < service_ids(before).len() && service_ids(before)[k] == x;
                    if k < i {
                        assert(service_ids(v@)[k] == x);
                    } else {
                        assert(service_ids(v@)[k + 1] == x);
                    }
                }
            }
        }
        assert forall|a: int, b: int| 0 <= a < service_ids(v@).len() && 0 <= b < service_ids(v@).len() && a != b
            implies service_ids(v@)[a] != service_ids(v@)[b] by {
            if a != i && b != i {
                let fa = if a < i { a } else { a - 1 };
                let fb = if b < i { b } else { b - 1 };
                assert(service_ids(before)[fa] == service_ids(v@)[a]);
                assert(service_ids(before)[fb] == service_ids(v@)[b]);
            } else if a == i {
                let fb = if b < i { b } else { b - 1 };
                assert(service_ids(before)[fb] == service_ids(v@)[b]);
                assert(before[fb]@ != id@);
            } else {
                let fa = if a < i { a } else { a - 1 };
                assert(service_ids(before)[fa] == service_ids(v@)[a]);
                assert(before[fa]@ != id@);
            }
        }
    }
    
}

/// Where a feature implementation comes from.
#[derive(Clone, Copy, Debug, PartialEq, Eq, Structural)]
pub enum FeatureOrigin {
    /// Shipped and versioned with the application.
    Bundled,
    /// Supplied separately and expected to run behind a sandbox boundary.
    External,
}

/// Declarative description of a feature's composition requirements.
#[derive(Clone, Debug, PartialEq, Eq)]
pub struct FeatureManifest {
    id: FeatureId,
    origin: FeatureOrigin,
    default_enabled: bool,
    dependencies: Vec<FeatureId>,
    conflicts: Vec<FeatureId>,
    provides: Vec<ServiceId>,
    requires: Vec<ServiceId>,
}

impl FeatureManifest {
    pub closed spec fn spec_id(&self) -> Seq<char> {
        self.id@
    }

    pub closed spec fn spec_origin(&self) -> FeatureOrigin {
        self.origin
    }

    pub closed spec fn spec_default(&self) -> bool {
        self.default_enabled
    }

    /// Hard dependencies, each once.
    pub closed spec fn spec_dependencies(&self) -> Seq<Seq<char>> {
        feature_ids(self.dependencies@)
    }

    /// Conflicting features, each once.
    pub closed spec fn spec_conflicts(&self) -> Seq<Seq<char>> {
        feature_ids(self.conflicts@)
    }

    /// Provided services, each once.
    pub closed spec fn spec_provides(&self) -> Seq<Seq<char>> {
        service_ids(self.provides@)
    }

    /// Required services, each once.
    pub closed spec fn spec_requires(&self) -> Seq<Seq<char>> {
        service_ids(self.requires@)
    }

    /// Every declared edge list holds each identifier once.
    pub open spec fn wf(&self) -> bool {
        &&& self.spec_dependencies().no_duplicates()
        &&& self.spec_conflicts().no_duplicates()
        &&& self.spec_provides().no_duplicates()
        &&& self.spec_requires().no_duplicates()
    }

    /// Creates a manifest with conservative defaults: not default-enabled, no edges.
    pub fn new(id: FeatureId, origin: FeatureOrigin) -> (m: Self)
        ensures
            m.wf(),
            m.spec_id() == id@,
            m.spec_origin() == origin,
            !m.spec_default(),
            m.spec_dependencies().len() == 0,
            m.spec_conflicts().len() == 0,
            m.spec_provides().len() == 0,
            m.spec_requires().len() == 0,
    {
        let m = FeatureManifest {
            id,
            origin,
            default_enabled: false,
            dependencies: Vec::new(),
            conflicts: Vec::new(),
            provides: Vec::new(),
            requires: Vec::new(),
        };
        proof {
            assert(m.spec_dependencies() =~= Seq::<Seq<char>>::empty());
            assert(m.spec_conflicts() =~= Seq::<Seq<char>>::empty());
            assert(m.spec_provides() =~= Seq::<Seq<char>>::empty());
            assert(m.spec_requires() =~= Seq::<Seq<char>>::empty());
        }
        m
    }

    /// Marks whether the feature is enabled in the default product profile.
    pub fn default_enabled(self, enabled: bool) -> (m: Self)
        ensures
            m.spec_default() == enabled,
            m.spec_id() == self.spec_id(),
            m.spec_origin() == self.spec_origin(),
            m.spec_dependencies() == self.spec_dependencies(),
            m.spec_conflicts() == self.spec_conflicts(),
            m.spec_provides() == self.spec_provides(),
            m.spec_requires() == self.spec_requires(),
    {
        let mut m = self;
        m.default_enabled = enabled;
        m
    }

    /// Declares a hard feature dependency (once, however often it is declared).
    pub fn depends_on(self, dependency: FeatureId) -> (m: Self)
        requires
            self.wf(),
        ensures
            m.wf(),
            m.spec_dependencies().to_set() == self.spec_dependencies().to_set().insert(dependency@),
            m.spec_default() == self.spec_default(),
            m.spec_id() == self.spec_id(),
            m.spec_origin() == self.spec_origin(),
            m.spec_conflicts() == self.spec_conflicts(),
            m.spec_provides() == self.spec_provides(),
            m.spec_requires() == self.spec_requires(),
    {
        let mut m = self;
        insert_feature(&mut m.dependencies, dependency);
        m
    }

    /// Declares that this feature cannot be active with another feature.
    pub fn conflicts_with(self, conflict: FeatureId) -> (m: Self)
        requires
            self.wf(),
        ensures
            m.wf(),
            m.spec_conflicts().to_set() == self.spec_conflicts().to_set().insert(conflict@),
            m.spec_default() == self.spec_default(),
            m.spec_id() == self.spec_id(),
            m.spec_origin() == self.spec_origin(),
            m.spec_dependencies() == self.spec_dependencies(),
            m.spec_provides() == self.spec_provides(),
            m.spec_requires() == self.spec_requires(),
    {
        let mut m = self;
        insert_feature(&mut m.conflicts, conflict);
        m
    }

    /// Declares a replaceable service provided by this feature.
    pub fn provides(self, service: ServiceId) -> (m: Self)
        requires
            self.wf(),
        ensures
            m.wf(),
            m.spec_provides().to_set() == self.spec_provides().to_set().insert(service@),
            m.spec_default() == self.spec_default(),
            m.spec_id() == self.spec_id(),
            m.spec_origin() == self.spec_origin(),
            m.spec_dependencies() == self.spec_dependencies(),
            m.spec_conflicts() == self.spec_conflicts(),
            m.spec_requires() == self.spec_requires(),
    {
        let mut m = self;
        insert_service(&mut m.provides, service);
        m
    }

    /// Declares a service required before this feature may activate.
    pub fn requires_service(self, service: ServiceId) -> (m: Self)
        requires
            self.wf(),
        ensures
            m.wf(),
            m.spec_requires().to_set() == self.spec_requires().to_set().insert(service@),
            m.spec_default() == self.spec_default(),
            m.spec_id() == self.spec_id(),
            m.spec_origin() == self.spec_origin(),
            m.spec_dependencies() == self.spec_dependencies(),
            m.spec_conflicts() == self.spec_conflicts(),
            m.spec_provides() == self.spec_provides(),
    {
        let mut m = self;
        insert_service(&mut m.requires, service);
        m
    }

    /// Stable feature identifier.
    pub fn id(&self) -> (id: &FeatureId)
        ensures
            id@ == self.spec_id(),
    {
        &self.id
    }

    /// Feature origin.
    pub fn origin(&self) -> (o: FeatureOrigin)
        ensures
            o == self.spec_origin(),
    {
        self.origin
    }

    /// Whether the default profile enables this feature.
    pub fn is_default_enabled(&self) -> (b: bool)
        ensures
            b == self.spec_default(),
    {
        self.default_enabled
    }

    /// Hard feature dependencies.
    pub fn dependencies(&self) -> (d: &[FeatureId])
        ensures
            feature_ids(d@) == self.spec_dependencies(),
    {
        self.dependencies.as_slice()
    }

    /// Mutually incompatible features.
    pub fn conflicts(&self) -> (c: &[FeatureId])
        ensures
            feature_ids(c@) == self.spec_conflicts(),
    {
        self.conflicts.as_slice()
    }

    /// Replaceable services supplied by this feature.
    pub fn provided_services(&self) -> (p: &[ServiceId])
        ensures
            service_ids(p@) == self.spec_provides(),
    {
        self.provides.as_slice()
    }

    /// Replaceable services consumed by this feature.
    pub fn required_services(&self) -> (r: &[ServiceId])
        ensures
            service_ids(r@) == self.spec_requires(),
    {
        self.requires.as_slice()
    }

    /// Returns whether this feature provides a service.
    pub fn provides_service(&self, service: &ServiceId) -> (b: bool)
        ensures
            b == self.spec_provides().contains(service@),
    {
        let mut i: usize = 0;
        while i < self.provides.len()
            invariant
                0 <= i <= self.provides@.len(),
                forall|j: int| 0 <= j < i ==> (#[trigger] self.provides@[j])@ != service@,
            decreases self.provides@.len() - i,
        {
            if self.provides[i].same(service) {
                assert(self.spec_provides()[i as int] == service@);
                return true;
            }
            i = i + 1;
        }
        proof {
            if self.spec_provides().contains(service@) {
                let k = choose|k: int| 0 <= k < self.spec_provides().len() && self.spec_provides()[k] == service@;
                assert(self.provides@[k]@ == service@);
            }
        }
        false
    }

    /// A copy of this manifest.
    pub fn duplicate(&self) -> (m: Self)
        ensures
            m.spec_id() == self.spec_id(),
            m.spec_origin() == self.spec_origin(),
            m.spec_default() == self.spec_default(),
            m.spec_dependencies() == self.spec_dependencies(),
            m.spec_conflicts() == self.spec_conflicts(),
            m.spec_provides() == self.spec_provides(),
            m.spec_requires() == self.spec_requires(),
    {
        FeatureManifest {
            id: self.id.duplicate(),
            origin: self.origin,
            default_enabled: self.default_enabled,
            dependencies: copy_features(self.dependencies.as_slice()),
            conflicts: copy_features(self.conflicts.as_slice()),
            provides: copy_services(&self.provides),
            requires: copy_services(&self.requires),
        }
    }
}

/// Copies a list of feature identifiers.
pub fn copy_features(v: &[FeatureId]) -> (r: Vec<FeatureId>)
    ensures
        feature_ids(r@) == feature_ids(v@),
{
    let mut out: Vec<FeatureId> = Vec::new();
    let mut i: usize = 0;
    while i < v.len()
        invariant
            0 <= i <= v@.len(),
            feature_ids(out@) == feature_ids(v@).subrange(0, i as int),
        decreases v@.len() - i,
    {
        let ghost before = out@;
        let c = v[i].duplicate();
        out.push(c);
        assert(out@ == before.push(c));
        assert(feature_ids(out@) =~= feature_ids(before).push(c@));
        assert(feature_ids(v@).subrange(0, i + 1) =~= feature_ids(v@).subrange(0, i as int).push(v@[i as int]@));
        assert(feature_ids(out@) =~= feature_ids(v@).subrange(0, i + 1));
        i = i + 1;
    }
    assert(feature_ids(v@).subrange(0, v@.len() as int) =~= feature_ids(v@));
    out
}

/// Copies a list of service identifiers.
pub fn copy_services(v: &Vec<ServiceId>) -> (r: Vec<ServiceId>)
    ensures
        service_ids(r@) == service_ids(v@),
{
    let mut out: Vec<ServiceId> = Vec::new();
    let mut i: usize = 0;
    while i < v.len()
        invariant
            0 <= i <= v@.len(),
            service_ids(out@) == service_ids(v@).subrange(0, i as int),
        decreases v@.len() - i,
    {
        let ghost before = out@;
        let c = v[i].duplicate();
        out.push(c);
        assert(out@ == before.push(c));
        assert(service_ids(out@) =~= service_ids(before).push(c@));
        assert(service_ids(v@).subrange(0, i + 1) =~= service_ids(v@).subrange(0, i as int).push(v@[i as int]@));
        assert(service_ids(out@) =~= service_ids(v@).subrange(0, i + 1));
        i = i + 1;
    }
    assert(service_ids(v@).subrange(0, v@.len() as int) =~= service_ids(v@));
    out
}

/// What `{:?}` shows of a string: quoted, with std's escapes.
pub uninterp spec fn debug_string_text(s: Seq<char>) -> Seq<char>;

/// `{:?}` of a string (std's `Debug` for `str`): the quoted, escaped text, a function of the
/// string alone.
#[verifier::external_body]
fn debug_string(s: &str) -> (d: String)
    ensures
        d@ == debug_string_text(s@),
{
    format!("{:?}", s)
}

/// The diagnostic text of a refused identifier.
pub open spec fn identifier_error_text(e: IdentifierError) -> Seq<char> {
    "invalid identifier "@ + debug_string_text(e.spec_value())
        + ": use 1-128 lowercase ASCII letters, digits, '.', '-' or '_' and start with a letter or digit"@
}

impl IdentifierError {
    /// The diagnostic text of the error.
    pub fn message(&self) -> (m: String)
        ensures
            m@ == identifier_error_text(*self),
    {
        let mut m = String::new();
        push_text(&mut m, "invalid identifier ");
        let quoted = debug_string(self.value.as_str());
        push_text(&mut m, quoted.as_str());
        push_text(&mut m, ": use 1-128 lowercase ASCII letters, digits, '.', '-' or '_' and start with a letter or digit");
        m
    }
}

} // verus!
