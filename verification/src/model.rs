//! Data-transfer records mirroring the banking API's JSON shapes, with
//! ghost views over which the library's contracts speak.

use vstd::prelude::*;

verus! {

// ------------------------- accounts -------------------------

/// A monetary balance: a currency code, a display value, and the value
/// in minor units of the currency.
#[derive(Debug, PartialEq)]
pub struct Balance {
    pub currency_code: String,
    pub value: String,
    pub value_in_base_units: i32,
}

pub struct BalanceV {
    pub currency_code: Seq<char>,
    pub value: Seq<char>,
    pub value_in_base_units: i32,
}

impl DeepView for Balance {
    type V = BalanceV;

    open spec fn deep_view(&self) -> BalanceV {
        BalanceV {
            currency_code: self.currency_code@,
            value: self.value@,
            value_in_base_units: self.value_in_base_units,
        }
    }
}

/// The attributes of an account as the API reports them.
#[derive(Debug, PartialEq)]
pub struct AccountAttributes {
    pub display_name: String,
    pub account_type: String,
    pub ownership_type: String,
    pub balance: Balance,
    pub created_at: String,
}

pub struct AccountAttributesV {
    pub display_name: Seq<char>,
    pub account_type: Seq<char>,
    pub ownership_type: Seq<char>,
    pub balance: BalanceV,
    pub created_at: Seq<char>,
}

impl DeepView for AccountAttributes {
    type V = AccountAttributesV;

    open spec fn deep_view(&self) -> AccountAttributesV {
        AccountAttributesV {
            display_name: self.display_name@,
            account_type: self.account_type@,
            ownership_type: self.ownership_type@,
            balance: self.balance.deep_view(),
            created_at: self.created_at@,
        }
    }
}

/// One account: its identifier and its attributes.
#[derive(Debug, PartialEq)]
pub struct Account {
    pub account_id: String,
    pub attributes: AccountAttributes,
}

pub struct AccountV {
    pub account_id: Seq<char>,
    pub attributes: AccountAttributesV,
}

impl DeepView for Account {
    type V = AccountV;

    open spec fn deep_view(&self) -> AccountV {
        AccountV { account_id: self.account_id@, attributes: self.attributes.deep_view() }
    }
}

/// The body of the non-paginated account listing: a list of accounts.
#[derive(Debug, PartialEq)]
pub struct ApiResponse {
    pub data: Vec<Account>,
}

pub struct ApiResponseV {
    pub data: Seq<AccountV>,
}

impl DeepView for ApiResponse {
    type V = ApiResponseV;

    open spec fn deep_view(&self) -> ApiResponseV {
        ApiResponseV { data: self.data.deep_view() }
    }
}

// ------------------------- transactions -------------------------

/// A monetary amount attached to a transaction. The upstream schema is
/// sparse: both parts may be absent.
#[derive(Debug, PartialEq)]
pub struct Amount {
    pub currency_code: Option<String>,
    pub value: Option<String>,
}

pub struct AmountV {
    pub currency_code: Option<Seq<char>>,
    pub value: Option<Seq<char>>,
}

impl DeepView for Amount {
    type V = AmountV;

    open spec fn deep_view(&self) -> AmountV {
        AmountV {
            currency_code: self.currency_code.deep_view(),
            value: self.value.deep_view(),
        }
    }
}

/// The customer who performed a transaction, when the API reports one.
#[derive(Debug, PartialEq)]
pub struct PerformingCustomer {
    pub display_name: Option<String>,
}

pub struct PerformingCustomerV {
    pub display_name: Option<Seq<char>>,
}

impl DeepView for PerformingCustomer {
    type V = PerformingCustomerV;

    open spec fn deep_view(&self) -> PerformingCustomerV {
        PerformingCustomerV { display_name: self.display_name.deep_view() }
    }
}

/// The attributes of a transaction. Every field is optional because the
/// upstream schema is sparse per transaction type.
#[derive(Debug, PartialEq)]
pub struct TransactionAttributes {
    pub description: Option<String>,
    pub message: Option<String>,
    pub round_up: Option<Amount>,
    pub amount: Option<Amount>,
    pub performing_customer: Option<PerformingCustomer>,
    pub settled_at: Option<String>,
}

pub struct TransactionAttributesV {
    pub description: Option<Seq<char>>,
    pub message: Option<Seq<char>>,
    pub round_up: Option<AmountV>,
    pub amount: Option<AmountV>,
    pub performing_customer: Option<PerformingCustomerV>,
    pub settled_at: Option<Seq<char>>,
}

impl DeepView for TransactionAttributes {
    type V = TransactionAttributesV;

    open spec fn deep_view(&self) -> TransactionAttributesV {
        TransactionAttributesV {
            description: self.description.deep_view(),
            message: self.message.deep_view(),
            round_up: self.round_up.deep_view(),
            amount: self.amount.deep_view(),
            performing_customer: self.performing_customer.deep_view(),
            settled_at: self.settled_at.deep_view(),
        }
    }
}

/// One transaction as listed by the paginated endpoint.
#[derive(Debug, PartialEq)]
pub struct Transactions {
    pub attributes: TransactionAttributes,
}

pub struct TransactionsV {
    pub attributes: TransactionAttributesV,
}

impl DeepView for Transactions {
    type V = TransactionsV;

    open spec fn deep_view(&self) -> TransactionsV {
        TransactionsV { attributes: self.attributes.deep_view() }
    }
}

/// The pagination links of a page response: the URL of the next page,
/// or `None` when the listing is exhausted.
#[derive(Debug, PartialEq)]
pub struct Links {
    pub next: Option<String>,
}

pub struct LinksV {
    pub next: Option<Seq<char>>,
}

impl DeepView for Links {
    type V = LinksV;

    open spec fn deep_view(&self) -> LinksV {
        LinksV { next: self.next.deep_view() }
    }
}

/// One page of the paginated transaction listing: its items and the
/// link to the next page.
#[derive(Debug, PartialEq)]
pub struct DataStruct {
    pub data: Vec<Transactions>,
    pub links: Links,
}

pub struct DataStructV {
    pub data: Seq<TransactionsV>,
    pub links: LinksV,
}

impl DeepView for DataStruct {
    type V = DataStructV;

    open spec fn deep_view(&self) -> DataStructV {
        DataStructV { data: self.data.deep_view(), links: self.links.deep_view() }
    }
}

} // verus!
