pub mod model;
pub mod currency_converter;
pub mod storage;

use vstd::prelude::*;

use crate::currency_converter::{price_convertible, CurrencyConverter};
use crate::model::{Currency, Price, Product, ProductId, User, UserId};
use crate::storage::{ProductStorage, UserStorage};

verus! {

/// The coefficient table the catalog boots with: the rates 1.00, 80.45 and
/// 88.65 against the rouble, in fixed-point (scaled by 100), one entry per
/// currency in `spec_index` order.
pub open spec fn default_coefficients() -> Seq<i64> {
    seq![100i64, 8045i64, 8865i64]
}

/// A price the boot-time coefficient table can convert without overflow.
pub open spec fn default_convertible(p: Price) -> bool {
    &&& 0 <= p.value
    &&& p.value * default_coefficients()[p.currency.spec_index()] <= i64::MAX
}

/// What a product looks like once its price is rewritten into `to`.
pub open spec fn converted_product(cc: CurrencyConverter, p: Product, to: Currency) -> Product {
    Product {
        id: p.id,
        name: p.name,
        price: Price {
            value: cc.convert_spec(p.price.value as int, p.price.currency, to) as i64,
            currency: to,
        },
    }
}

/// Orchestrates the user and product stores, and rewrites every product
/// price into the asking user's settlement currency on the way out. No
/// conversion logic lives here: it is a call-through to the engine.
pub struct Manager {
    user_storage: UserStorage,
    product_storage: ProductStorage,
    converter: CurrencyConverter,
}

impl Manager {
    /// The conversion engine this manager routes prices through.
    pub closed spec fn spec_converter(self) -> CurrencyConverter {
        self.converter
    }

    pub closed spec fn spec_user_storage(self) -> UserStorage {
        self.user_storage
    }

    pub closed spec fn spec_product_storage(self) -> ProductStorage {
        self.product_storage
    }

    /// The registered users, by id.
    pub open spec fn users(self) -> Map<UserId, User> {
        self.spec_user_storage().contents()
    }

    /// The listed products, by id.
    pub open spec fn products(self) -> Map<ProductId, Product> {
        self.spec_product_storage().contents()
    }

    /// Both stores are well formed, the engine's table is intact, and every
    /// listed product has a price the engine can convert without overflow —
    /// `add_product` turns away anything else at the door.
    pub open spec fn wf(self) -> bool {
        &&& self.spec_user_storage().wf()
        &&& self.spec_product_storage().wf()
        &&& self.spec_converter().wf()
        &&& forall|k: ProductId| #[trigger]
            self.products().dom().contains(k) ==> price_convertible(
                self.spec_converter(),
                self.products()[k].price,
            )
    }

    /// Builds a manager over the given stores with the boot-time coefficient
    /// table, quoted in roubles.
    pub fn with_storages(user_storage: UserStorage, product_storage: ProductStorage) -> (r:
        Manager)
        requires
            user_storage.wf(),
            product_storage.wf(),
            forall|k: ProductId| #[trigger]
                product_storage.contents().dom().contains(k) ==> default_convertible(
                    product_storage.contents()[k].price,
                ),
        ensures
            r.wf(),
            r.users() == user_storage.contents(),
            r.products() == product_storage.contents(),
            r.spec_converter().quote_currency() == Currency::Rub,
            r.spec_converter().coefficients_seq() == default_coefficients(),
    {
        let mut coefficients: Vec<i64> = Vec::new();
        coefficients.push(100);
        coefficients.push(8045);
        coefficients.push(8865);
        proof {
            assert(coefficients@ =~= default_coefficients());
            assert forall|i: int| 0 <= i < coefficients@.len() implies 1
                <= #[trigger] coefficients@[i] by {
                if i == 0 {
                } else if i == 1 {
                } else {
                    assert(i == 2);
                }
            }
        }
        let converter = CurrencyConverter::new(Currency::Rub, coefficients);
        let converter = converter.unwrap();
        Manager { user_storage, product_storage, converter }
    }

    /// Registers `user` under its own id, overwriting any previous
    /// registration. The in-memory store cannot fail, so this always
    /// reports success.
    pub fn add_user(&mut self, user: User) -> (r: bool)
        requires
            old(self).wf(),
        ensures
            r,
            final(self).wf(),
            final(self).users() == old(self).users().insert(user.id, user),
            final(self).products() == old(self).products(),
            final(self).spec_converter() == old(self).spec_converter(),
    {
        let key = user.id();
        self.user_storage.store(key, user)
    }

    /// Looks a user up by id: `Some` exactly when the user is registered.
    pub fn get_user(&self, id: UserId) -> (r: Option<User>)
        requires
            self.wf(),
        ensures
            r.is_some() <==> self.users().dom().contains(id),
            match r {
                Some(u) => self.users().dom().contains(id) && u == self.users()[id],
                None => true,
            },
    {
        self.user_storage.load(id)
    }

    /// Lists `prod` under its own id, overwriting any previous listing —
    /// unless the price cannot be converted without overflow (negative, or
    /// too large for the engine's table), in which case nothing is stored
    /// and failure is reported.
    pub fn add_product(&mut self, prod: Product) -> (r: bool)
        requires
            old(self).wf(),
        ensures
            r == price_convertible(old(self).spec_converter(), prod.price),
            r ==> final(self).products() == old(self).products().insert(prod.id, prod),
            !r ==> final(self).products() == old(self).products(),
            final(self).users() == old(self).users(),
            final(self).spec_converter() == old(self).spec_converter(),
            final(self).wf(),
    {
        if !self.converter.can_convert(prod.price) {
            return false;
        }
        let key = prod.id();
        self.product_storage.store(key, prod)
    }

    /// Fetches every product with its price rewritten into the settlement
    /// currency of the user with `user_id`, in listing order.
    ///
    /// Absence (`None`) means exactly that no such user is registered; a
    /// registered user with an empty catalog gets `Some` of an empty list.
    pub fn get_products(&self, user_id: UserId) -> (r: Option<Vec<Product>>)
        requires
            self.wf(),
        ensures
            r.is_some() <==> self.users().dom().contains(user_id),
            match r {
                Some(out) => {
                    &&& out@.len() == self.spec_product_storage().values_seq().len()
                    &&& forall|i: int|
                        0 <= i < out@.len() ==> #[trigger] out@[i] == converted_product(
                            self.spec_converter(),
                            self.spec_product_storage().values_seq()[i],
                            self.users()[user_id].currency,
                        )
                },
                None => true,
            },
    {
        let user = match self.get_user(user_id) {
            Some(u) => u,
            None => {
                return None;
            },
        };
        let mut it = match self.product_storage.load_all() {
            Some(it) => it,
            None => {
                return None;
            },
        };
        let ghost total = self.product_storage.values_seq();
        let mut out: Vec<Product> = Vec::new();
        loop
            invariant
                self.wf(),
                self.users().dom().contains(user_id),
                user == self.users()[user_id],
                total == self.spec_product_storage().values_seq(),
                out@.len() <= total.len(),
                it.remaining() == total.subrange(out@.len() as int, total.len() as int),
                forall|i: int|
                    0 <= i < out@.len() ==> #[trigger] out@[i] == converted_product(
                        self.spec_converter(),
                        total[i],
                        user.currency,
                    ),
            ensures
                out@.len() == total.len(),
                forall|i: int|
                    0 <= i < out@.len() ==> #[trigger] out@[i] == converted_product(
                        self.spec_converter(),
                        total[i],
                        user.currency,
                    ),
            decreases it.remaining().len(),
        {
            let ghost n = out@.len() as int;
            let p = match it.next() {
                Some(p) => p,
                None => {
                    break;
                },
            };
            proof {
                assert(p == total[n]);
                self.product_storage.lemma_value_in_contents(n);
                assert(price_convertible(self.spec_converter(), p.price));
                assert(it.remaining() =~= total.subrange(n + 1, total.len() as int));
            }
            let price = self.converter.convert(p.price, user.currency);
            let converted = Product { id: p.id, name: p.name, price };
            out.push(converted);
        }
        Some(out)
    }
}

} // verus!

