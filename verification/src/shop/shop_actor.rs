//! A shop's state and its descriptor.

use vstd::prelude::*;
use crate::error::FileError;
use crate::shop::local_purchase::{LocalPurchase, LocalPurchaseView};
use crate::states::LocalPurchaseState;
use crate::numeral::{parse_i32, parse_u32, spec_parse_i32, spec_parse_u32};
use crate::seek::{first_position, lemma_is_first_position, lemma_no_first_position};
use crate::text::{lines, lines_of, split, split_on};

verus! {

/// One product of a shop: the units that can still be sold or reserved, and
/// the units that are reserved for online purchases on their way.
#[derive(Debug)]
pub struct Product {
    pub id: String,
    pub stock: u32,
    pub reserved: u32,
}

/// A product as the contracts see it. The counters are integers, so that a
/// contract can say that they never fall below zero.
pub struct ProductView {
    pub id: Seq<char>,
    pub stock: int,
    pub reserved: int,
}

impl View for Product {
    type V = ProductView;

    open spec fn view(&self) -> ProductView {
        ProductView { id: self.id@, stock: self.stock as int, reserved: self.reserved as int }
    }
}

/// A shop: who it is, where it listens, the zone it stands in, and its stock
/// in the order of its descriptor.
#[derive(Debug)]
pub struct Shop {
    pub name: String,
    pub address: String,
    pub location: i32,
    pub stock: Vec<Product>,
}

/// A shop as the contracts see it.
pub struct ShopView {
    pub name: Seq<char>,
    pub address: Seq<char>,
    pub location: i32,
    pub stock: Seq<ProductView>,
}

/// The products of a stock as the contracts see them.
pub open spec fn stock_view(stock: Seq<Product>) -> Seq<ProductView> {
    Seq::new(stock.len(), |i: int| stock[i]@)
}

impl View for Shop {
    type V = ShopView;

    open spec fn view(&self) -> ShopView {
        ShopView {
            name: self.name@,
            address: self.address@,
            location: self.location,
            stock: stock_view(self.stock@),
        }
    }
}

/// The ids of a stock's products, in their order.
pub open spec fn product_ids(stock: Seq<ProductView>) -> Seq<Seq<char>> {
    Seq::new(stock.len(), |i: int| stock[i].id)
}

/// The position of the product that a purchase of `id` draws on: the first
/// product of that id.
pub open spec fn find_product(stock: Seq<ProductView>, id: Seq<char>) -> Option<int> {
    first_position(product_ids(stock), id)
}

/// `product` with other counters.
pub open spec fn with_counts(product: ProductView, stock: int, reserved: int) -> ProductView {
    ProductView { id: product.id, stock, reserved }
}

/// A product keeps its id when its counters change, so the products of a
/// stock stay the same products in the same order.
pub proof fn lemma_update_keeps_ids(stock: Seq<ProductView>, i: int, available: int, reserved: int)
    requires
        0 <= i < stock.len(),
    ensures
        product_ids(stock.update(i, with_counts(stock[i], available, reserved))) == product_ids(
            stock,
        ),
{
    assert(product_ids(stock.update(i, with_counts(stock[i], available, reserved)))
        =~= product_ids(stock));
}

/// The counters of every product are in the range of the machine.
pub open spec fn stock_fits(stock: Seq<ProductView>) -> bool {
    forall|i: int|
        0 <= i < stock.len() ==> 0 <= (#[trigger] stock[i]).stock && 0 <= stock[i].reserved
            && stock[i].stock + stock[i].reserved <= u32::MAX
}

/// What the first line of a shop's descriptor says: name, address and zone,
/// in that order, with commas between them.
pub open spec fn shop_header(line: Seq<char>) -> Option<(Seq<char>, Seq<char>, i32)> {
    let fields = split(line, ',');
    if fields.len() != 3 {
        None
    } else {
        match spec_parse_i32(fields[2]) {
            Some(zone) => Some((fields[0], fields[1], zone)),
            None => None,
        }
    }
}

/// What a stock line says: a product and its units, with a comma between.
pub open spec fn product_of_line(line: Seq<char>) -> Option<ProductView> {
    let fields = split(line, ',');
    if fields.len() != 2 {
        None
    } else {
        match spec_parse_u32(fields[1]) {
            Some(units) => Some(ProductView { id: fields[0], stock: units as int, reserved: 0 }),
            None => None,
        }
    }
}

/// The lines of a descriptor from line `from` on, or none where it has
/// fewer lines.
pub open spec fn lines_from(text: Seq<char>, from: int) -> Seq<Seq<char>> {
    let all = lines(text);
    if from <= all.len() {
        all.skip(from)
    } else {
        Seq::empty()
    }
}

/// What a shop's descriptor says. Its first line is the header; its second
/// line separates and is not read; every further line is a stock line. The
/// descriptor says nothing if the header or any stock line is malformed.
pub open spec fn shop_of_text(text: Seq<char>) -> Option<ShopView> {
    let all = lines(text);
    let body = lines_from(text, 2);
    if all.len() == 0 {
        None
    } else {
        match shop_header(all[0]) {
            None => None,
            Some(header) => {
                if forall|i: int| 0 <= i < body.len() ==> product_of_line(#[trigger] body[i]) is Some {
                    Some(
                        ShopView {
                            name: header.0,
                            address: header.1,
                            location: header.2,
                            stock: Seq::new(body.len(), |i: int| product_of_line(body[i])->0),
                        },
                    )
                } else {
                    None
                }
            },
        }
    }
}

/// Reads the header line of a shop's descriptor.
pub fn read_shop_header(line: &str) -> (header: Option<(String, String, i32)>)
    ensures
        match shop_header(line@) {
            Some(said) => header matches Some(read) && read.0@ == said.0 && read.1@ == said.1
                && read.2 == said.2,
            None => header is None,
        },
{
    let fields = split_on(line, ',');
    if fields.len() != 3 {
        return None;
    }
    proof {
        assert(fields.deep_view()[0] == fields[0]@);
        assert(fields.deep_view()[1] == fields[1]@);
        assert(fields.deep_view()[2] == fields[2]@);
    }
    match parse_i32(fields[2]) {
        Some(zone) => Some((fields[0].to_owned(), fields[1].to_owned(), zone)),
        None => None,
    }
}

/// Reads one stock line.
fn read_product(line: &str) -> (product: Option<Product>)
    ensures
        match product_of_line(line@) {
            Some(said) => product matches Some(read) && read@ == said,
            None => product is None,
        },
{
    let fields = split_on(line, ',');
    if fields.len() != 2 {
        return None;
    }
    proof {
        assert(fields.deep_view()[0] == fields[0]@);
        assert(fields.deep_view()[1] == fields[1]@);
    }
    match parse_u32(fields[1]) {
        Some(units) => Some(Product { id: fields[0].to_owned(), stock: units, reserved: 0 }),
        None => None,
    }
}

/// What a line of in-store orders says: a product and a quantity, with a
/// comma between. The purchase starts out as created.
pub open spec fn purchase_of_line(line: Seq<char>) -> Option<LocalPurchaseView> {
    let fields = split(line, ',');
    if fields.len() != 2 {
        None
    } else {
        match spec_parse_u32(fields[1]) {
            Some(quantity) => Some(
                LocalPurchaseView {
                    product: fields[0],
                    quantity: quantity as int,
                    status: LocalPurchaseState::CREATED,
                },
            ),
            None => None,
        }
    }
}

/// The in-store orders that a text gives: one for each of its lines. The
/// text gives no orders if any line is malformed.
pub open spec fn purchases_of_text(text: Seq<char>) -> Option<Seq<LocalPurchaseView>> {
    let all = lines(text);
    if forall|i: int| 0 <= i < all.len() ==> purchase_of_line(#[trigger] all[i]) is Some {
        Some(Seq::new(all.len(), |i: int| purchase_of_line(all[i])->0))
    } else {
        None
    }
}

/// Reads one line of in-store orders.
fn read_purchase(line: &str) -> (purchase: Option<LocalPurchase>)
    ensures
        match purchase_of_line(line@) {
            Some(said) => purchase matches Some(read) && read@ == said,
            None => purchase is None,
        },
{
    let fields = split_on(line, ',');
    if fields.len() != 2 {
        return None;
    }
    proof {
        assert(fields.deep_view()[0] == fields[0]@);
        assert(fields.deep_view()[1] == fields[1]@);
    }
    match parse_u32(fields[1]) {
        Some(quantity) => Some(
            LocalPurchase {
                product: fields[0].to_owned(),
                quantity,
                status: LocalPurchaseState::CREATED,
            },
        ),
        None => None,
    }
}

impl Shop {
    /// The counters of every product fit the machine: what is in stock and
    /// what is reserved add up to no more than a `u32` holds.
    pub open spec fn wf(&self) -> bool {
        stock_fits(self@.stock)
    }

    /// Tells whether the counters of every product fit the machine.
    pub fn is_wf(&self) -> (fits: bool)
        ensures
            fits == self.wf(),
    {
        let mut i: usize = 0;
        while i < self.stock.len()
            invariant
                i <= self.stock.len(),
                forall|k: int|
                    0 <= k < i ==> (#[trigger] self@.stock[k]).stock + self@.stock[k].reserved
                        <= u32::MAX,
            decreases self.stock.len() - i,
        {
            proof {
                assert(self@.stock[i as int] == self.stock[i as int]@);
            }
            if self.stock[i].reserved > u32::MAX - self.stock[i].stock {
                return false;
            }
            i = i + 1;
        }
        proof {
            assert forall|k: int| 0 <= k < self@.stock.len() implies 0 <= (
            #[trigger] self@.stock[k]).stock && 0 <= self@.stock[k].reserved by {
                assert(self@.stock[k] == self.stock[k]@);
            }
        }
        true
    }

    /// Finds the product that a purchase of `id` draws on.
    pub fn find_product_index(&self, id: &String) -> (found: Option<usize>)
        ensures
            match find_product(self@.stock, id@) {
                Some(i) => found == Some(i as usize) && 0 <= i < self.stock.len(),
                None => found is None,
            },
    {
        let ghost ids = product_ids(self@.stock);
        let mut i: usize = 0;
        while i < self.stock.len()
            invariant
                i <= self.stock.len(),
                ids == product_ids(self@.stock),
                forall|k: int| 0 <= k < i ==> ids[k] != id@,
            decreases self.stock.len() - i,
        {
            proof {
                assert(ids[i as int] == self.stock[i as int].id@);
            }
            if self.stock[i].id == *id {
                proof {
                    lemma_is_first_position(ids, id@, i as int);
                }
                return Some(i);
            }
            i = i + 1;
        }
        proof {
            lemma_no_first_position(ids, id@);
        }
        None
    }

    /// Reads a shop from the text of its descriptor. A shop that was just
    /// read has nothing reserved.
    pub fn from_reader(content: &str) -> (loaded: Result<Shop, FileError>)
        ensures
            match shop_of_text(content@) {
                Some(said) => loaded matches Ok(shop) && shop@ == said && shop.wf(),
                None => loaded == Err::<Shop, FileError>(FileError::WrongFormat),
            },
    {
        let all = lines_of(content);
        if all.len() == 0 {
            return Err(FileError::WrongFormat);
        }
        proof {
            assert(all.deep_view()[0] == all[0]@);
        }
        let header = match read_shop_header(all[0]) {
            Some(header) => header,
            None => {
                return Err(FileError::WrongFormat);
            },
        };
        let ghost body = lines_from(content@, 2);
        let count = all.len();
        let first: usize = if count < 2 {
            count
        } else {
            2
        };
        let mut stock: Vec<Product> = Vec::new();
        let mut i: usize = first;
        while i < count
            invariant
                first <= i <= count,
                count == all.len(),
                all.deep_view() == lines(content@),
                body == lines(content@).skip(first as int),
                body == lines_from(content@, 2),
                stock.len() == i - first,
                forall|k: int|
                    0 <= k < stock.len() ==> product_of_line(#[trigger] body[k]) == Some(
                        stock[k]@,
                    ),
                forall|k: int| 0 <= k < stock.len() ==> (#[trigger] stock[k]).reserved == 0,
            decreases count - i,
        {
            proof {
                assert(all.deep_view()[i as int] == all[i as int]@);
                assert(body[i - first] == all[i as int]@);
            }
            match read_product(all[i]) {
                Some(product) => {
                    stock.push(product);
                },
                None => {
                    assert(product_of_line(body[i - first]) is None);
                    return Err(FileError::WrongFormat);
                },
            }
            i = i + 1;
        }
        let shop = Shop { name: header.0, address: header.1, location: header.2, stock };
        proof {
            assert(body.len() == shop.stock.len());
            assert forall|k: int| 0 <= k < body.len() implies product_of_line(
                #[trigger] body[k],
            ) is Some by {
                assert(product_of_line(body[k]) == Some(shop.stock[k]@));
            }
            let said = shop_of_text(content@)->0;
            assert forall|k: int| 0 <= k < body.len() implies shop@.stock[k] == said.stock[k] by {
                assert(product_of_line(body[k]) == Some(shop.stock[k]@));
            }
            assert(shop@.stock =~= said.stock);
        }
        Ok(shop)
    }

    /// Reads the in-store orders of a shop from their text.
    pub fn orders_from_reader(content: &str) -> (loaded: Result<Vec<LocalPurchase>, FileError>)
        ensures
            match purchases_of_text(content@) {
                Some(said) => loaded matches Ok(orders) && orders.len() == said.len() && forall|
                    i: int,
                |
                    0 <= i < said.len() ==> (#[trigger] orders[i])@ == said[i],
                None => loaded == Err::<Vec<LocalPurchase>, FileError>(FileError::WrongFormat),
            },
    {
        let all = lines_of(content);
        let ghost said_lines = lines(content@);
        let mut orders: Vec<LocalPurchase> = Vec::new();
        let mut i: usize = 0;
        while i < all.len()
            invariant
                i <= all.len(),
                all.deep_view() == said_lines,
                said_lines == lines(content@),
                orders.len() == i,
                forall|k: int|
                    0 <= k < orders.len() ==> purchase_of_line(#[trigger] said_lines[k]) == Some(
                        orders[k]@,
                    ),
            decreases all.len() - i,
        {
            proof {
                assert(all.deep_view()[i as int] == all[i as int]@);
            }
            match read_purchase(all[i]) {
                Some(order) => {
                    orders.push(order);
                },
                None => {
                    assert(purchase_of_line(said_lines[i as int]) is None);
                    return Err(FileError::WrongFormat);
                },
            }
            i = i + 1;
        }
        proof {
            assert(said_lines.len() == orders.len());
            assert forall|k: int| 0 <= k < said_lines.len() implies purchase_of_line(
                #[trigger] said_lines[k],
            ) is Some by {
                assert(purchase_of_line(said_lines[k]) == Some(orders[k]@));
            }
            let said = purchases_of_text(content@)->0;
            assert forall|k: int| 0 <= k < said.len() implies (#[trigger] orders[k])@
                == said[k] by {
                assert(purchase_of_line(said_lines[k]) == Some(orders[k]@));
            }
        }
        Ok(orders)
    }
}

} // verus!
