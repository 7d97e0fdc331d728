//! The second revision of the API: users with roles and creation times,
//! products with prices, repositories for both behind the shared
//! `Repository` trait, and derived queries layered on top.

use vstd::prelude::*;
use vstd::string::StringExecFns;
use crate::repository::{Entity, Repository, Store, lists_contents};
use crate::text::{contains_char, str_contains_char, str_eq};

verus! {

/// The role a user holds.
#[derive(Debug, Clone, PartialEq, Eq, Structural)]
pub enum UserRole {
    Admin,
    User,
    Guest,
}

/// A user record: an id that identifies it, a display name, an email
/// address, a role, and the creation time in seconds since the Unix epoch,
/// set once at construction.
#[derive(Debug, Clone)]
pub struct User {
    pub id: String,
    pub name: String,
    pub email: String,
    pub role: UserRole,
    pub created_at: u64,
}

impl Entity for User {
    open spec fn key(&self) -> Seq<char> {
        self.id@
    }

    fn id_ref(&self) -> (r: &str) {
        self.id.as_str()
    }
}

/// Relies on std::time::SystemTime::now for the wall clock; nothing is
/// assumed of the value it yields.
#[verifier::external_body]
fn now_seconds() -> u64 {
    match std::time::SystemTime::now().duration_since(std::time::UNIX_EPOCH) {
        Ok(elapsed) => elapsed.as_secs(),
        Err(_) => 0,
    }
}

impl User {
    /// Builds a user with the default role and the current time as its
    /// creation time; nothing is validated here.
    pub fn new(id: String, name: String, email: String) -> (r: Self)
        ensures
            r.id == id,
            r.name == name,
            r.email == email,
            r.role == UserRole::User,
    {
        User { id, name, email, role: UserRole::User, created_at: now_seconds() }
    }

    /// A copy of this user with the role replaced; every other field is
    /// kept. The user the method was called on is consumed, not mutated.
    pub fn with_role(self, role: UserRole) -> (r: Self)
        ensures
            r.id == self.id,
            r.name == self.name,
            r.email == self.email,
            r.created_at == self.created_at,
            r.role == role,
    {
        let mut r = self;
        r.role = role;
        r
    }

    /// True exactly when the role is `Admin`.
    pub fn is_admin(&self) -> (r: bool)
        ensures
            r == (self.role == UserRole::Admin),
    {
        self.role == UserRole::Admin
    }
}

/// A product record: an id that identifies it, a display name, a price as
/// a whole count of minor currency units (so never negative), and a
/// free-form category used as a grouping key.
#[derive(Debug, Clone)]
pub struct Product {
    pub id: String,
    pub name: String,
    pub price: u64,
    pub category: String,
}

impl Entity for Product {
    open spec fn key(&self) -> Seq<char> {
        self.id@
    }

    fn id_ref(&self) -> (r: &str) {
        self.id.as_str()
    }
}

impl Product {
    /// Builds a product from its parts, verbatim; nothing is validated.
    pub fn new(id: String, name: String, price: u64, category: String) -> (r: Self)
        ensures
            r.id == id,
            r.name == name,
            r.price == price,
            r.category == category,
    {
        Product { id, name, price, category }
    }
}

/// An owning store of users, keyed by the user's id, with derived queries
/// by email and by role.
pub struct UserRepository {
    users: Store<User>,
}

impl View for UserRepository {
    type V = Map<Seq<char>, User>;

    closed spec fn view(&self) -> Map<Seq<char>, User> {
        self.users@
    }
}

impl UserRepository {
    /// An empty repository.
    pub fn new() -> (r: Self)
        ensures
            r@ == Map::<Seq<char>, User>::empty(),
    {
        UserRepository { users: Store::new() }
    }

    /// A stored user whose email equals the argument exactly, or `None`
    /// if there is none. When several stored users share the email, which
    /// of them is returned is unspecified.
    pub fn find_by_email(&self, email: &str) -> (r: Option<&User>)
        ensures
            match r {
                Some(user) => self@.contains_key(user.id@) && *user == self@[user.id@]
                    && user.email@ == email@,
                None => forall|k: Seq<char>| #[trigger]
                    self@.contains_key(k) ==> self@[k].email@ != email@,
            },
    {
        let all = self.users.entries();
        let n = all.len();
        let mut i: usize = 0;
        while i < n
            invariant
                i <= n,
                n == all@.len(),
                lists_contents(all@, self@),
                forall|j: int| 0 <= j < i ==> (#[trigger] all@[j]).email@ != email@,
            decreases n - i,
        {
            let user: &User = all[i];
            if str_eq(user.email.as_str(), email) {
                return Some(user);
            }
            i += 1;
        }
        proof {
            assert forall|k: Seq<char>| #[trigger] self@.contains_key(k) implies self@[k].email@
                != email@ by {
                let j = choose|j: int| 0 <= j < all@.len() && (#[trigger] all@[j]).key() == k;
                assert(*all@[j] == self@[k]);
            }
        }
        None
    }

    /// Every stored user, each exactly once; the order is unspecified.
    pub fn find_all(&self) -> (r: Vec<&User>)
        ensures
            lists_contents(r@, self@),
    {
        self.users.entries()
    }

    /// Every stored user whose role equals the argument, each exactly
    /// once; the order is unspecified.
    #[verifier::rlimit(50)]
    pub fn find_by_role(&self, role: &UserRole) -> (r: Vec<&User>)
        ensures
            forall|i: int|
                0 <= i < r@.len() ==> self@.contains_key((#[trigger] r@[i]).id@) && *r@[i]
                    == self@[r@[i].id@] && r@[i].role == *role,
            forall|i: int, j: int|
                0 <= i < j < r@.len() ==> (#[trigger] r@[i]).id@ != (#[trigger] r@[j]).id@,
            forall|k: Seq<char>|
                #[trigger] self@.contains_key(k) && self@[k].role == *role ==> exists|i: int|
                    0 <= i < r@.len() && (#[trigger] r@[i]).id@ == k,
    {
        let all = self.users.entries();
        let n = all.len();
        let mut r: Vec<&User> = Vec::new();
        let mut i: usize = 0;
        while i < n
            invariant
                i <= n,
                n == all@.len(),
                lists_contents(all@, self@),
                forall|p: int| 0 <= p < r@.len() ==> (#[trigger] r@[p]).role == *role,
                forall|p: int| #![trigger r@[p]]
                    0 <= p < r@.len() ==> exists|j: int|
                        0 <= j < i && (#[trigger] all@[j]) == r@[p],
                forall|j: int|
                    0 <= j < i && (#[trigger] all@[j]).role == *role ==> exists|p: int|
                        0 <= p < r@.len() && (#[trigger] r@[p]) == all@[j],
                forall|p: int, q: int|
                    0 <= p < q < r@.len() ==> (#[trigger] r@[p]).id@ != (#[trigger] r@[q]).id@,
            decreases n - i,
        {
            let ghost r0 = r@;
            let user: &User = all[i];
            if user.role == *role {
                proof {
                    assert forall|p: int| 0 <= p < r0.len() implies (#[trigger] r0[p]).id@
                        != all@[i as int].id@ by {
                        let j = choose|j: int| 0 <= j < i && (#[trigger] all@[j]) == r0[p];
                    }
                }
                r.push(user);
                proof {
                    assert forall|p: int| #![trigger r@[p]] 0 <= p < r@.len() implies exists|
                        j: int,
                    | 0 <= j < i + 1 && (#[trigger] all@[j]) == r@[p] by {
                        if p < r0.len() {
                            let j = choose|j: int| 0 <= j < i && (#[trigger] all@[j]) == r0[p];
                            assert(all@[j] == r@[p]);
                        } else {
                            assert(all@[i as int] == r@[p]);
                        }
                    }
                    assert forall|j: int|
                        0 <= j < i + 1 && (#[trigger] all@[j]).role == *role implies exists|p: int|
                        0 <= p < r@.len() && (#[trigger] r@[p]) == all@[j] by {
                        if j < i {
                            let p = choose|p: int| 0 <= p < r0.len() && (#[trigger] r0[p])
                                == all@[j];
                            assert(r@[p] == all@[j]);
                        } else {
                            assert(r@[r@.len() - 1] == all@[j]);
                        }
                    }
                }
            }
            i += 1;
        }
        proof {
            assert forall|k: Seq<char>|
                #[trigger] self@.contains_key(k) && self@[k].role == *role implies exists|p: int|
                0 <= p < r@.len() && (#[trigger] r@[p]).id@ == k by {
                let j = choose|j: int| 0 <= j < all@.len() && (#[trigger] all@[j]).key() == k;
                assert(*all@[j] == self@[k]);
                let p = choose|p: int| 0 <= p < r@.len() && (#[trigger] r@[p]) == all@[j];
                assert(r@[p].id@ == k);
            }
            assert forall|i: int| 0 <= i < r@.len() implies self@.contains_key(
                (#[trigger] r@[i]).id@,
            ) && *r@[i] == self@[r@[i].id@] && r@[i].role == *role by {
                let j = choose|j: int| 0 <= j < n && (#[trigger] all@[j]) == r@[i];
            }
        }
        r
    }
}

impl Repository<User> for UserRepository {
    open spec fn contents(&self) -> Map<Seq<char>, User> {
        self@
    }

    fn find_by_id(&self, id: &str) -> (r: Option<&User>) {
        self.users.find(id)
    }

    fn save(&mut self, item: User) {
        self.users.save(item);
    }

    fn delete(&mut self, id: &str) -> (r: Option<User>) {
        self.users.delete(id)
    }
}

/// An owning store of products, keyed by the product's id, with a derived
/// query by category.
pub struct ProductRepository {
    products: Store<Product>,
}

impl View for ProductRepository {
    type V = Map<Seq<char>, Product>;

    closed spec fn view(&self) -> Map<Seq<char>, Product> {
        self.products@
    }
}

impl ProductRepository {
    /// An empty repository.
    pub fn new() -> (r: Self)
        ensures
            r@ == Map::<Seq<char>, Product>::empty(),
    {
        ProductRepository { products: Store::new() }
    }

    /// Every stored product whose category equals the argument exactly,
    /// each exactly once; the order is unspecified.
    #[verifier::rlimit(50)]
    pub fn find_by_category(&self, category: &str) -> (r: Vec<&Product>)
        ensures
            forall|i: int|
                0 <= i < r@.len() ==> self@.contains_key((#[trigger] r@[i]).id@) && *r@[i]
                    == self@[r@[i].id@] && r@[i].category@ == category@,
            forall|i: int, j: int|
                0 <= i < j < r@.len() ==> (#[trigger] r@[i]).id@ != (#[trigger] r@[j]).id@,
            forall|k: Seq<char>|
                #[trigger] self@.contains_key(k) && self@[k].category@ == category@ ==> exists|
                    i: int,
                |
                    0 <= i < r@.len() && (#[trigger] r@[i]).id@ == k,
    {
        let all = self.products.entries();
        let n = all.len();
        let mut r: Vec<&Product> = Vec::new();
        let mut i: usize = 0;
        while i < n
            invariant
                i <= n,
                n == all@.len(),
                lists_contents(all@, self@),
                forall|p: int| 0 <= p < r@.len() ==> (#[trigger] r@[p]).category@ == category@,
                forall|p: int| #![trigger r@[p]]
                    0 <= p < r@.len() ==> exists|j: int|
                        0 <= j < i && (#[trigger] all@[j]) == r@[p],
                forall|j: int|
                    0 <= j < i && (#[trigger] all@[j]).category@ == category@ ==> exists|p: int|
                        0 <= p < r@.len() && (#[trigger] r@[p]) == all@[j],
                forall|p: int, q: int|
                    0 <= p < q < r@.len() ==> (#[trigger] r@[p]).id@ != (#[trigger] r@[q]).id@,
            decreases n - i,
        {
            let ghost r0 = r@;
            let product: &Product = all[i];
            if str_eq(product.category.as_str(), category) {
                proof {
                    assert forall|p: int| 0 <= p < r0.len() implies (#[trigger] r0[p]).id@
                        != all@[i as int].id@ by {
                        let j = choose|j: int| 0 <= j < i && (#[trigger] all@[j]) == r0[p];
                    }
                }
                r.push(product);
                proof {
                    assert forall|p: int| #![trigger r@[p]] 0 <= p < r@.len() implies exists|
                        j: int,
                    | 0 <= j < i + 1 && (#[trigger] all@[j]) == r@[p] by {
                        if p < r0.len() {
                            let j = choose|j: int| 0 <= j < i && (#[trigger] all@[j]) == r0[p];
                            assert(all@[j] == r@[p]);
                        } else {
                            assert(all@[i as int] == r@[p]);
                        }
                    }
                    assert forall|j: int|
                        0 <= j < i + 1 && (#[trigger] all@[j]).category@
                        == category@ implies exists|p: int|
                        0 <= p < r@.len() && (#[trigger] r@[p]) == all@[j] by {
                        if j < i {
                            let p = choose|p: int| 0 <= p < r0.len() && (#[trigger] r0[p])
                                == all@[j];
                            assert(r@[p] == all@[j]);
                        } else {
                            assert(r@[r@.len() - 1] == all@[j]);
                        }
                    }
                }
            }
            i += 1;
        }
        proof {
            assert forall|k: Seq<char>|
                #[trigger] self@.contains_key(k) && self@[k].category@
                == category@ implies exists|p: int|
                0 <= p < r@.len() && (#[trigger] r@[p]).id@ == k by {
                let j = choose|j: int| 0 <= j < all@.len() && (#[trigger] all@[j]).key() == k;
                assert(*all@[j] == self@[k]);
                let p = choose|p: int| 0 <= p < r@.len() && (#[trigger] r@[p]) == all@[j];
                assert(r@[p].id@ == k);
            }
            assert forall|i: int| 0 <= i < r@.len() implies self@.contains_key(
                (#[trigger] r@[i]).id@,
            ) && *r@[i] == self@[r@[i].id@] && r@[i].category@ == category@ by {
                let j = choose|j: int| 0 <= j < n && (#[trigger] all@[j]) == r@[i];
            }
        }
        r
    }
}

impl Repository<Product> for ProductRepository {
    open spec fn contents(&self) -> Map<Seq<char>, Product> {
        self@
    }

    fn find_by_id(&self, id: &str) -> (r: Option<&Product>) {
        self.products.find(id)
    }

    fn save(&mut self, item: Product) {
        self.products.save(item);
    }

    fn delete(&mut self, id: &str) -> (r: Option<Product>) {
        self.products.delete(id)
    }
}

/// The display label of a role.
pub open spec fn role_label(role: UserRole) -> Seq<char> {
    match role {
        UserRole::Admin => "Admin"@,
        UserRole::User => "User"@,
        UserRole::Guest => "Guest"@,
    }
}

/// The label of a role, as a string slice.
fn role_str(role: &UserRole) -> (r: &'static str)
    ensures
        r@ == role_label(*role),
{
    match role {
        UserRole::Admin => "Admin",
        UserRole::User => "User",
        UserRole::Guest => "Guest",
    }
}

/// Renders a user as `name <email> (role)`.
pub fn format_user(user: &User) -> (r: String)
    ensures
        r@ == user.name@ + " <"@ + user.email@ + "> ("@ + role_label(user.role) + ")"@,
{
    let mut r = user.name.clone();
    r.append(" <");
    r.append(user.email.as_str());
    r.append("> (");
    r.append(role_str(&user.role));
    r.append(")");
    proof {
        assert(r@ =~= user.name@ + " <"@ + user.email@ + "> ("@ + role_label(user.role) + ")"@);
    }
    r
}

/// The sum of the prices of the given products.
pub open spec fn total_price(s: Seq<Product>) -> int
    decreases s.len(),
{
    if s.len() == 0 {
        0
    } else {
        total_price(s.drop_last()) + s.last().price
    }
}

proof fn lemma_total_take_step(s: Seq<Product>, i: int)
    requires
        0 <= i < s.len(),
    ensures
        total_price(s.take(i + 1)) == total_price(s.take(i)) + s[i].price,
{
    assert(s.take(i + 1).drop_last() =~= s.take(i));
    assert(s.take(i + 1).last() == s[i]);
}

proof fn lemma_total_prefix_bound(s: Seq<Product>, i: int)
    requires
        0 <= i <= s.len(),
    ensures
        total_price(s.take(i)) <= total_price(s),
    decreases s.len() - i,
{
    if i == s.len() {
        assert(s.take(i) =~= s);
    } else {
        lemma_total_take_step(s, i);
        lemma_total_prefix_bound(s, i + 1);
    }
}

/// Sums the prices of the given products; an empty sequence sums to
/// zero. The caller ensures the sum fits the result type.
pub fn calculate_total(products: &[Product]) -> (r: u64)
    requires
        total_price(products@) <= u64::MAX,
    ensures
        r == total_price(products@),
{
    let n = products.len();
    let mut total: u64 = 0;
    let mut i: usize = 0;
    while i < n
        invariant
            i <= n,
            n == products@.len(),
            total == total_price(products@.take(i as int)),
            total_price(products@) <= u64::MAX,
        decreases n - i,
    {
        proof {
            lemma_total_take_step(products@, i as int);
            lemma_total_prefix_bound(products@, i as int + 1);
        }
        total = total + products[i].price;
        i += 1;
    }
    proof {
        assert(products@.take(n as int) =~= products@);
    }
    total
}

/// A deliberately weak syntactic check: true exactly when the string
/// holds both an at sign and a dot, anywhere and in any order.
pub fn validate_email(email: &str) -> (r: bool)
    ensures
        r == (contains_char(email@, '@') && contains_char(email@, '.')),
{
    str_contains_char(email, '@') && str_contains_char(email, '.')
}

} // verus!
