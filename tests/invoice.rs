use sangini::contract::SanginiInvoiceContract;
use sangini::errors::ContractError;
use sangini::events::InvoiceEvent;
use sangini::types::{Address, DisputeResolution, InvoiceStatus, OrderStatus, Payment};

const T0: u64 = 1_700_000_000;
const DAY: u64 = 24 * 60 * 60;

struct TestSetup {
    contract: SanginiInvoiceContract,
    me: Address,
    admin: Address,
    supplier: Address,
    buyer: Address,
    investor: Address,
    sub_vendor: Address,
}

impl TestSetup {
    fn new() -> Self {
        let me = Address { id: 100 };
        let admin = Address { id: 1 };
        let usdc = Address { id: 6 };
        let mut contract = SanginiInvoiceContract::new(me);
        contract.initialize(admin, usdc, 1000, 2400, 30, 500).unwrap();
        TestSetup {
            contract,
            me,
            admin,
            supplier: Address { id: 2 },
            buyer: Address { id: 3 },
            investor: Address { id: 4 },
            sub_vendor: Address { id: 5 },
        }
    }

    fn create_invoice(&mut self, amount: i128) -> u64 {
        let due_date = T0 + 90 * DAY;
        self.contract
            .mint_draft(
                self.supplier,
                self.buyer,
                amount,
                "INR".to_string(),
                due_date,
                "Auto parts supply Q4".to_string(),
                "PO-2024-1234".to_string(),
                String::new(),
                T0,
            )
            .unwrap()
    }

    fn create_sample_invoice(&mut self) -> u64 {
        self.create_invoice(10_00_000_0000000)
    }

    fn approve(&mut self, id: u64) {
        self.contract.approve_invoice(id, self.buyer, T0).unwrap();
    }
}

#[test]
fn test_mint_draft() {
    let mut setup = TestSetup::new();
    let invoice_id = setup.create_sample_invoice();
    let invoice = setup.contract.get_invoice(invoice_id).unwrap();
    assert_eq!(invoice.supplier, setup.supplier);
    assert_eq!(invoice.buyer, setup.buyer);
    assert_eq!(invoice.amount, 10_00_000_0000000);
    assert_eq!(invoice.status, InvoiceStatus::Draft);
    assert_eq!(invoice.total_tokens, 0);
}

#[test]
fn test_approve_invoice() {
    let mut setup = TestSetup::new();
    let invoice_id = setup.create_sample_invoice();
    setup.approve(invoice_id);
    let invoice = setup.contract.get_invoice(invoice_id).unwrap();
    assert_eq!(invoice.status, InvoiceStatus::Verified);
    assert_eq!(invoice.total_tokens, 10_00_000_0000000);
    assert!(invoice.buyer_signed_at > 0);
    let holding = setup.contract.get_holding(invoice_id, setup.supplier).unwrap();
    assert_eq!(holding.amount, 10_00_000_0000000);
}

#[test]
fn test_approve_invoice_wrong_buyer() {
    let mut setup = TestSetup::new();
    let invoice_id = setup.create_sample_invoice();
    let r = setup.contract.approve_invoice(invoice_id, setup.investor, T0);
    assert_eq!(r, Err(ContractError::Unauthorized));
}

#[test]
fn test_transfer_tokens_to_sub_vendor() {
    let mut setup = TestSetup::new();
    let invoice_id = setup.create_sample_invoice();
    setup.approve(invoice_id);
    let transfer_amount = 3_00_000_0000000;
    setup
        .contract
        .transfer_tokens(invoice_id, setup.supplier, setup.sub_vendor, transfer_amount, T0)
        .unwrap();
    let supplier_holding = setup.contract.get_holding(invoice_id, setup.supplier).unwrap();
    let sub_vendor_holding = setup.contract.get_holding(invoice_id, setup.sub_vendor).unwrap();
    assert_eq!(supplier_holding.amount, 7_00_000_0000000);
    assert_eq!(sub_vendor_holding.amount, 3_00_000_0000000);
}

#[test]
fn test_invest_requires_kyc() {
    let mut setup = TestSetup::new();
    let invoice_id = setup.create_sample_invoice();
    setup.approve(invoice_id);
    let result = setup.contract.invest(invoice_id, setup.investor, 1_00_000_0000000, T0);
    assert_eq!(result, Err(ContractError::KYCRequired));
}

#[test]
fn test_invest_with_kyc() {
    let mut setup = TestSetup::new();
    let invoice_id = setup.create_sample_invoice();
    setup.approve(invoice_id);
    setup.contract.set_investor_kyc(setup.admin, setup.investor, true).unwrap();
    let token_amount = 1_00_000_0000000;
    setup.contract.invest(invoice_id, setup.investor, token_amount, T0).unwrap();
    let holding = setup.contract.get_holding(invoice_id, setup.investor).unwrap();
    assert_eq!(holding.amount, token_amount);
    // Nine tenths of the tokens are still unsold, so the invoice is not yet funded.
    let invoice = setup.contract.get_invoice(invoice_id).unwrap();
    assert_eq!(invoice.status, InvoiceStatus::Verified);
    assert_eq!(invoice.tokens_remaining, 9_00_000_0000000);
}

#[test]
fn test_settlement_distribution() {
    let mut setup = TestSetup::new();
    let invoice_id = setup.create_sample_invoice();
    setup.approve(invoice_id);
    setup.contract.set_investor_kyc(setup.admin, setup.investor, true).unwrap();
    setup.contract.invest(invoice_id, setup.investor, 3_00_000_0000000, T0).unwrap();
    let now = T0 + 91 * 24 * 60 * 60;
    let settlement = setup.contract.get_settlement_amount(invoice_id, now).unwrap();
    setup.contract.settle(invoice_id, setup.buyer, settlement, now).unwrap();
    let invoice = setup.contract.get_invoice(invoice_id).unwrap();
    assert_eq!(invoice.status, InvoiceStatus::Settled);
}

#[test]
fn test_raise_dispute() {
    let mut setup = TestSetup::new();
    let invoice_id = setup.create_sample_invoice();
    setup.approve(invoice_id);
    setup
        .contract
        .raise_dispute(invoice_id, setup.buyer, "Goods were defective".to_string(), T0)
        .unwrap();
    let invoice = setup.contract.get_invoice(invoice_id).unwrap();
    assert_eq!(invoice.status, InvoiceStatus::Disputed);
    let dispute = setup.contract.get_dispute(invoice_id).unwrap();
    assert_eq!(dispute.raised_by, setup.buyer);
    assert_eq!(dispute.resolution, DisputeResolution::Pending);
}

#[test]
fn test_resolve_dispute_valid_clawback() {
    let mut setup = TestSetup::new();
    let invoice_id = setup.create_sample_invoice();
    setup.approve(invoice_id);
    setup.contract.set_investor_kyc(setup.admin, setup.investor, true).unwrap();
    setup.contract.invest(invoice_id, setup.investor, 1_00_000_0000000, T0).unwrap();
    setup
        .contract
        .raise_dispute(invoice_id, setup.buyer, "Goods defective".to_string(), T0)
        .unwrap();
    setup.contract.resolve_dispute(invoice_id, setup.admin, true, T0).unwrap();
    let result = setup.contract.get_holding(invoice_id, setup.investor);
    assert!(result.is_err());
}

#[test]
fn test_resolve_dispute_invalid() {
    let mut setup = TestSetup::new();
    let invoice_id = setup.create_sample_invoice();
    setup.approve(invoice_id);
    setup.contract.raise_dispute(invoice_id, setup.buyer, "Testing".to_string(), T0).unwrap();
    setup.contract.resolve_dispute(invoice_id, setup.admin, false, T0).unwrap();
    let invoice = setup.contract.get_invoice(invoice_id).unwrap();
    assert_eq!(invoice.status, InvoiceStatus::Funded);
}

#[test]
fn test_revoke_draft() {
    let mut setup = TestSetup::new();
    let invoice_id = setup.create_sample_invoice();
    setup.contract.revoke(invoice_id, setup.supplier, T0).unwrap();
    let invoice = setup.contract.get_invoice(invoice_id).unwrap();
    assert_eq!(invoice.status, InvoiceStatus::Revoked);
}

#[test]
fn test_revoke_stale_verified() {
    let mut setup = TestSetup::new();
    let invoice_id = setup.create_sample_invoice();
    setup.approve(invoice_id);
    let now = T0 + 100 * 24 * 60 * 60;
    setup.contract.revoke(invoice_id, setup.supplier, now).unwrap();
    let invoice = setup.contract.get_invoice(invoice_id).unwrap();
    assert_eq!(invoice.status, InvoiceStatus::Revoked);
}

#[test]
fn test_check_status_overdue() {
    let mut setup = TestSetup::new();
    let invoice_id = setup.create_sample_invoice();
    setup.approve(invoice_id);
    let now = T0 + 91 * 24 * 60 * 60;
    let status = setup.contract.check_status(invoice_id, now).unwrap();
    assert_eq!(status, InvoiceStatus::Overdue);
}

#[test]
fn test_check_status_defaulted() {
    let mut setup = TestSetup::new();
    let invoice_id = setup.create_sample_invoice();
    setup.approve(invoice_id);
    let now = T0 + 121 * 24 * 60 * 60;
    let status = setup.contract.check_status(invoice_id, now).unwrap();
    assert_eq!(status, InvoiceStatus::Defaulted);
}

#[test]
fn test_kyc_status() {
    let mut setup = TestSetup::new();
    assert!(!setup.contract.is_kyc_approved(setup.investor));
    setup.contract.set_investor_kyc(setup.admin, setup.investor, true).unwrap();
    assert!(setup.contract.is_kyc_approved(setup.investor));
    setup.contract.set_investor_kyc(setup.admin, setup.investor, false).unwrap();
    assert!(!setup.contract.is_kyc_approved(setup.investor));
}

#[test]
fn auction_price_after_ten_hours() {
    let mut setup = TestSetup::new();
    let id = setup.create_invoice(1_000_000);
    setup.approve(id);
    setup.contract.start_auction(id, setup.supplier, 24, 1000, T0).unwrap();
    let inv = setup.contract.get_invoice(id).unwrap();
    assert_eq!(inv.start_price, 1_000_000);
    assert_eq!(inv.min_price, 900_000);
    assert_eq!(inv.status, InvoiceStatus::Funding);
    // 1_000_000 * 50 * 10 / 10_000 = 50_000 off after ten full hours.
    assert_eq!(setup.contract.get_current_price(id, T0 + 10 * 3600), Ok(950_000));
    // One full hour takes 5_000 off.
    assert_eq!(setup.contract.get_current_price(id, T0 + 3600), Ok(995_000));
}

#[test]
fn auction_price_falls_and_floors() {
    let mut setup = TestSetup::new();
    let id = setup.create_invoice(1_000_000);
    setup.approve(id);
    setup.contract.start_auction(id, setup.supplier, 48, 1000, T0).unwrap();
    let mut last = i128::MAX;
    for h in 0..60u64 {
        let p = setup.contract.get_current_price(id, T0 + h * 3600 + 1800).unwrap();
        assert!(p <= last);
        assert!(p >= 900_000);
        last = p;
    }
    // 20 hours drop 10%, reaching the floor; the end of the auction keeps it there.
    assert_eq!(setup.contract.get_current_price(id, T0 + 20 * 3600), Ok(900_000));
    assert_eq!(setup.contract.get_current_price(id, T0 + 48 * 3600), Ok(900_000));
    assert_eq!(setup.contract.get_current_price(id, T0 + 3599), Ok(1_000_000));
}

#[test]
fn auction_errors() {
    let mut setup = TestSetup::new();
    let id = setup.create_invoice(1_000_000);
    assert_eq!(setup.contract.get_current_price(id, T0), Err(ContractError::AuctionNotStarted));
    assert_eq!(setup.contract.get_current_price(9999, T0), Err(ContractError::InvoiceNotFound));
    assert_eq!(
        setup.contract.start_auction(id, setup.supplier, 24, 1000, T0),
        Err(ContractError::InvalidStatus)
    );
    setup.approve(id);
    assert_eq!(
        setup.contract.start_auction(id, setup.buyer, 24, 1000, T0),
        Err(ContractError::Unauthorized)
    );
    assert_eq!(
        setup.contract.start_auction(id, setup.supplier, 0, 1000, T0),
        Err(ContractError::InvalidAuctionParams)
    );
    assert_eq!(
        setup.contract.start_auction(id, setup.supplier, 24, 5001, T0),
        Err(ContractError::InvalidAuctionParams)
    );
    assert_eq!(
        setup.contract.start_auction(id, setup.supplier, u64::MAX / 3600, 1000, T0),
        Err(ContractError::InvalidAuctionParams)
    );
    assert!(setup.contract.start_auction(id, setup.supplier, 24, 5000, T0).is_ok());
    assert_eq!(setup.contract.get_invoice(id).unwrap().min_price, 500_000);
}

#[test]
fn invest_at_auction_price_funds_pool() {
    let mut setup = TestSetup::new();
    let id = setup.create_invoice(1_000_000);
    setup.approve(id);
    setup.contract.start_auction(id, setup.supplier, 24, 1000, T0).unwrap();
    setup.contract.set_investor_kyc(setup.admin, setup.investor, true).unwrap();
    setup.contract.take_payments();
    assert_eq!(setup.contract.get_current_price(id, T0 + 3600), Ok(995_000));
    setup.contract.invest(id, setup.investor, 300_000, T0 + 3600).unwrap();
    assert_eq!(setup.contract.get_insurance_pool_balance(), 14_925);
    let payments = setup.contract.take_payments();
    assert_eq!(
        payments,
        vec![
            Payment { from: setup.investor, to: setup.me, amount: 298_500 },
            Payment { from: setup.me, to: setup.supplier, amount: 283_575 },
        ]
    );
    let holding = setup.contract.get_holding(id, setup.investor).unwrap();
    assert_eq!(holding.amount, 300_000);
    assert_eq!(holding.acquired_price, 298_500);
    assert_eq!(setup.contract.get_holding(id, setup.supplier).unwrap().amount, 700_000);
    let inv = setup.contract.get_invoice(id).unwrap();
    assert_eq!(inv.tokens_sold, 300_000);
    assert_eq!(inv.tokens_remaining, 700_000);
    assert_eq!(setup.contract.get_available_tokens(id), Ok(700_000));
}

#[test]
fn invest_last_token_funds_invoice() {
    let mut setup = TestSetup::new();
    let id = setup.create_invoice(1_000_000);
    setup.approve(id);
    setup.contract.set_investor_kyc(setup.admin, setup.investor, true).unwrap();
    setup.contract.invest(id, setup.investor, 400_000, T0).unwrap();
    setup.contract.invest(id, setup.investor, 600_000, T0).unwrap();
    let inv = setup.contract.get_invoice(id).unwrap();
    assert_eq!(inv.status, InvoiceStatus::Funded);
    assert_eq!(inv.tokens_remaining, 0);
    let holding = setup.contract.get_holding(id, setup.investor).unwrap();
    assert_eq!(holding.amount, 1_000_000);
    assert_eq!(holding.acquired_price, 1_000_000);
    assert_eq!(setup.contract.get_holding(id, setup.supplier), Err(ContractError::HoldingNotFound));
    assert_eq!(setup.contract.invest(id, setup.investor, 1, T0), Err(ContractError::InvalidStatus));
}

#[test]
fn invest_errors() {
    let mut setup = TestSetup::new();
    let id = setup.create_invoice(1_000_000);
    setup.contract.set_investor_kyc(setup.admin, setup.investor, true).unwrap();
    assert_eq!(setup.contract.invest(9999, setup.investor, 1, T0), Err(ContractError::InvoiceNotFound));
    assert_eq!(setup.contract.invest(id, setup.investor, 1, T0), Err(ContractError::InvalidStatus));
    setup.approve(id);
    assert_eq!(
        setup.contract.invest(id, setup.investor, 1_000_001, T0),
        Err(ContractError::InsufficientTokens)
    );
    assert_eq!(setup.contract.invest(id, setup.investor, 0, T0), Err(ContractError::InvalidAmount));
    setup.contract.transfer_tokens(id, setup.supplier, setup.sub_vendor, 500_000, T0).unwrap();
    assert_eq!(
        setup.contract.invest(id, setup.investor, 600_000, T0),
        Err(ContractError::InsufficientTokens)
    );
}

#[test]
fn settlement_pays_holders_pro_rata() {
    let mut setup = TestSetup::new();
    let id = setup.create_invoice(3);
    setup.approve(id);
    setup.contract.transfer_tokens(id, setup.supplier, setup.sub_vendor, 1, T0).unwrap();
    setup.contract.take_payments();
    // No interest accrues on the day of creation.
    assert_eq!(setup.contract.get_settlement_amount(id, T0), Ok(3));
    setup.contract.settle(id, setup.buyer, 10, T0).unwrap();
    let payments = setup.contract.take_payments();
    assert_eq!(
        payments,
        vec![
            Payment { from: setup.buyer, to: setup.me, amount: 10 },
            Payment { from: setup.me, to: setup.supplier, amount: 6 },
            Payment { from: setup.me, to: setup.sub_vendor, amount: 3 },
        ]
    );
    assert_eq!(setup.contract.get_holding(id, setup.supplier), Err(ContractError::HoldingNotFound));
    assert_eq!(setup.contract.get_holding(id, setup.sub_vendor), Err(ContractError::HoldingNotFound));
    let inv = setup.contract.get_invoice(id).unwrap();
    assert_eq!(inv.repayment_received, 10);
    assert_eq!(inv.settled_at, T0);
}

#[test]
fn settlement_amount_interest() {
    let mut setup = TestSetup::new();
    let id = setup.create_sample_invoice();
    // 30 days at the base rate: 10^13 * 1000 * 30 / 3_650_000.
    assert_eq!(setup.contract.get_settlement_amount(id, T0 + 30 * DAY), Ok(10_082_191_780_821));
    // 91 days, past the due date, at the penalty rate: 10^13 * 2400 * 91 / 3_650_000.
    assert_eq!(setup.contract.get_settlement_amount(id, T0 + 91 * DAY), Ok(10_598_356_164_383));
    assert_eq!(setup.contract.get_settlement_amount(id, T0 + DAY - 1), Ok(10_00_000_0000000));
    assert_eq!(setup.contract.get_settlement_amount(9999, T0), Err(ContractError::InvoiceNotFound));
}

#[test]
fn settle_succeeds_once() {
    let mut setup = TestSetup::new();
    let id = setup.create_invoice(1_000_000);
    setup.approve(id);
    assert_eq!(
        setup.contract.settle(id, setup.buyer, 999_999, T0),
        Err(ContractError::InsufficientPayment)
    );
    assert_eq!(setup.contract.settle(id, setup.supplier, 1_000_000, T0), Err(ContractError::Unauthorized));
    setup.contract.settle(id, setup.buyer, 1_000_000, T0).unwrap();
    assert_eq!(setup.contract.settle(id, setup.buyer, 1_000_000, T0), Err(ContractError::InvalidStatus));
}

#[test]
fn settle_rejects_disputed_invoice() {
    let mut setup = TestSetup::new();
    let id = setup.create_invoice(1_000_000);
    assert_eq!(setup.contract.settle(id, setup.buyer, 1_000_000, T0), Err(ContractError::InvalidStatus));
    setup.approve(id);
    setup.contract.raise_dispute(id, setup.buyer, "late".to_string(), T0).unwrap();
    assert_eq!(setup.contract.settle(id, setup.buyer, 1_000_000, T0), Err(ContractError::InvalidStatus));
}

#[test]
fn insurance_claim_is_capped_and_single() {
    let mut setup = TestSetup::new();
    let id = setup.create_invoice(1_000_000);
    setup.approve(id);
    setup.contract.set_investor_kyc(setup.admin, setup.investor, true).unwrap();
    setup.contract.invest(id, setup.investor, 400_000, T0).unwrap();
    // 5% of 400_000 went to the pool.
    assert_eq!(setup.contract.get_insurance_pool_balance(), 20_000);
    assert_eq!(setup.contract.claim_insurance(id, setup.investor), Err(ContractError::NotDefaulted));
    assert_eq!(setup.contract.check_status(id, T0 + 121 * DAY), Ok(InvoiceStatus::Defaulted));
    setup.contract.take_payments();
    // Half of 400_000 is 200_000, capped at the pool's 20_000.
    assert_eq!(setup.contract.claim_insurance(id, setup.investor), Ok(20_000));
    assert_eq!(setup.contract.get_insurance_pool_balance(), 0);
    assert_eq!(
        setup.contract.take_payments(),
        vec![Payment { from: setup.me, to: setup.investor, amount: 20_000 }]
    );
    assert_eq!(setup.contract.claim_insurance(id, setup.investor), Err(ContractError::AlreadyClaimed));
    assert_eq!(
        setup.contract.claim_insurance(id, setup.supplier),
        Err(ContractError::InsufficientInsurancePool)
    );
    assert_eq!(setup.contract.claim_insurance(id, setup.sub_vendor), Err(ContractError::HoldingNotFound));
}

#[test]
fn insurance_claim_pays_half_when_pool_suffices() {
    let mut setup = TestSetup::new();
    let big = setup.create_invoice(10_000_000);
    setup.approve(big);
    setup.contract.set_investor_kyc(setup.admin, setup.investor, true).unwrap();
    setup.contract.invest(big, setup.investor, 10_000_000, T0).unwrap();
    let id = setup.create_invoice(100_000);
    setup.approve(id);
    setup.contract.invest(id, setup.investor, 60_000, T0).unwrap();
    assert_eq!(setup.contract.get_insurance_pool_balance(), 503_000);
    setup.contract.check_status(id, T0 + 200 * DAY).unwrap();
    assert_eq!(setup.contract.claim_insurance(id, setup.investor), Ok(30_000));
    assert_eq!(setup.contract.get_insurance_pool_balance(), 473_000);
}

#[test]
fn dispute_invalid_then_valid_clawback() {
    let mut setup = TestSetup::new();
    let id = setup.create_invoice(1_000_000);
    setup.approve(id);
    setup.contract.set_investor_kyc(setup.admin, setup.investor, true).unwrap();
    setup.contract.invest(id, setup.investor, 1_000_000, T0).unwrap();
    assert_eq!(setup.contract.get_invoice(id).unwrap().status, InvoiceStatus::Funded);
    setup.contract.raise_dispute(id, setup.buyer, "short".to_string(), T0).unwrap();
    setup.contract.resolve_dispute(id, setup.admin, false, T0 + 5).unwrap();
    assert_eq!(setup.contract.get_invoice(id).unwrap().status, InvoiceStatus::Funded);
    let d = setup.contract.get_dispute(id).unwrap();
    assert_eq!(d.resolution, DisputeResolution::Invalid);
    assert_eq!(d.resolved_at, T0 + 5);
    setup.contract.raise_dispute(id, setup.buyer, "fraud".to_string(), T0 + 10).unwrap();
    setup.contract.take_payments();
    setup.contract.resolve_dispute(id, setup.admin, true, T0 + 20).unwrap();
    assert_eq!(setup.contract.get_holding(id, setup.investor), Err(ContractError::HoldingNotFound));
    assert_eq!(setup.contract.get_dispute(id).unwrap().resolution, DisputeResolution::Valid);
    assert!(setup.contract.take_payments().is_empty());
}

#[test]
fn dispute_errors() {
    let mut setup = TestSetup::new();
    let id = setup.create_invoice(1_000_000);
    assert_eq!(setup.contract.get_dispute(id).err(), Some(ContractError::DisputeNotFound));
    assert_eq!(
        setup.contract.raise_dispute(id, setup.buyer, "x".to_string(), T0),
        Err(ContractError::InvalidStatus)
    );
    setup.approve(id);
    assert_eq!(
        setup.contract.raise_dispute(id, setup.supplier, "x".to_string(), T0),
        Err(ContractError::Unauthorized)
    );
    assert_eq!(setup.contract.resolve_dispute(id, setup.admin, true, T0), Err(ContractError::InvalidStatus));
    assert_eq!(setup.contract.resolve_dispute(id, setup.buyer, true, T0), Err(ContractError::Unauthorized));
    assert_eq!(
        setup.contract.resolve_dispute(9999, setup.admin, true, T0),
        Err(ContractError::InvoiceNotFound)
    );
}

#[test]
fn revoke_errors() {
    let mut setup = TestSetup::new();
    let id = setup.create_invoice(1_000_000);
    assert_eq!(setup.contract.revoke(id, setup.buyer, T0), Err(ContractError::Unauthorized));
    setup.approve(id);
    assert_eq!(setup.contract.revoke(id, setup.supplier, T0), Err(ContractError::CannotRevoke));
    setup.contract.revoke(id, setup.supplier, T0 + 91 * DAY).unwrap();
    assert_eq!(setup.contract.get_holding(id, setup.supplier), Err(ContractError::HoldingNotFound));
    assert_eq!(setup.contract.revoke(id, setup.supplier, T0 + 91 * DAY), Err(ContractError::CannotRevoke));
}

#[test]
fn mint_and_approve_errors() {
    let mut setup = TestSetup::new();
    let r = setup.contract.mint_draft(
        setup.supplier,
        setup.buyer,
        0,
        String::new(),
        T0,
        String::new(),
        String::new(),
        String::new(),
        T0,
    );
    assert_eq!(r, Err(ContractError::InvalidAmount));
    let first = setup.create_invoice(5);
    let second = setup.create_invoice(7);
    assert_eq!(first, 1001);
    assert_eq!(second, 1002);
    assert_eq!(setup.contract.approve_invoice(1003, setup.buyer, T0), Err(ContractError::InvoiceNotFound));
    setup.approve(first);
    assert_eq!(setup.contract.approve_invoice(first, setup.buyer, T0), Err(ContractError::InvalidStatus));
    assert_eq!(setup.contract.get_invoice(first).unwrap().token_symbol, "SNG-");
    assert_eq!(setup.contract.get_invoice(1000).err(), Some(ContractError::InvoiceNotFound));
}

#[test]
fn initialize_once() {
    let mut setup = TestSetup::new();
    assert_eq!(
        setup.contract.initialize(setup.admin, setup.admin, 1, 1, 1, 1),
        Err(ContractError::AlreadyInitialized)
    );
    assert_eq!(
        setup.contract.set_investor_kyc(setup.buyer, setup.investor, true),
        Err(ContractError::Unauthorized)
    );
    assert_eq!(setup.contract.set_relayer(setup.admin, setup.buyer, true), Ok(()));
    assert_eq!(setup.contract.set_relayer(setup.buyer, setup.buyer, true), Err(ContractError::Unauthorized));
}

#[test]
fn transfer_errors_and_merge() {
    let mut setup = TestSetup::new();
    let id = setup.create_invoice(1_000);
    assert_eq!(
        setup.contract.transfer_tokens(id, setup.supplier, setup.sub_vendor, 10, T0),
        Err(ContractError::InvalidStatus)
    );
    setup.approve(id);
    assert_eq!(
        setup.contract.transfer_tokens(id, setup.supplier, setup.sub_vendor, 0, T0),
        Err(ContractError::InvalidAmount)
    );
    assert_eq!(
        setup.contract.transfer_tokens(id, setup.sub_vendor, setup.supplier, 10, T0),
        Err(ContractError::InsufficientTokens)
    );
    setup.contract.transfer_tokens(id, setup.supplier, setup.sub_vendor, 10, T0).unwrap();
    setup.contract.transfer_tokens(id, setup.supplier, setup.sub_vendor, 15, T0 + 1).unwrap();
    let h = setup.contract.get_holding(id, setup.sub_vendor).unwrap();
    assert_eq!(h.amount, 25);
    assert_eq!(h.acquired_at, T0);
    assert_eq!(h.acquired_price, 1_000);
    setup.contract.transfer_tokens(id, setup.sub_vendor, setup.supplier, 25, T0).unwrap();
    assert_eq!(setup.contract.get_holding(id, setup.sub_vendor), Err(ContractError::HoldingNotFound));
    assert_eq!(setup.contract.get_holding(id, setup.supplier).unwrap().amount, 1_000);
}

#[test]
fn order_book_fills_and_cancels() {
    let mut setup = TestSetup::new();
    let id = setup.create_invoice(1_000);
    setup.approve(id);
    setup.contract.set_investor_kyc(setup.admin, setup.investor, true).unwrap();
    let order = setup.contract.create_sell_order(id, setup.supplier, 300, 2, T0).unwrap();
    assert_eq!(order, 1);
    setup.contract.take_payments();
    setup.contract.fill_order(order, setup.investor, 100, T0).unwrap();
    assert_eq!(
        setup.contract.take_payments(),
        vec![Payment { from: setup.investor, to: setup.supplier, amount: 200 }]
    );
    let o = setup.contract.get_order(order).unwrap();
    assert_eq!(o.status, OrderStatus::PartiallyFilled);
    assert_eq!(o.tokens_remaining, 200);
    assert_eq!(setup.contract.get_holding(id, setup.investor).unwrap().amount, 100);
    assert_eq!(setup.contract.get_holding(id, setup.supplier).unwrap().amount, 900);
    assert_eq!(setup.contract.get_open_orders(id).len(), 1);
    setup.contract.fill_order(order, setup.investor, 200, T0).unwrap();
    assert_eq!(setup.contract.get_order(order).unwrap().status, OrderStatus::Filled);
    assert!(setup.contract.get_open_orders(id).is_empty());
    assert_eq!(setup.contract.cancel_order(order, setup.supplier), Err(ContractError::OrderAlreadyFilled));
    assert_eq!(setup.contract.fill_order(order, setup.investor, 1, T0), Err(ContractError::OrderNotActive));
    let second = setup.contract.create_sell_order(id, setup.supplier, 50, 1, T0).unwrap();
    assert_eq!(second, 2);
    assert_eq!(setup.contract.cancel_order(second, setup.investor), Err(ContractError::Unauthorized));
    setup.contract.cancel_order(second, setup.supplier).unwrap();
    assert_eq!(setup.contract.get_order(second).unwrap().status, OrderStatus::Cancelled);
    assert_eq!(setup.contract.get_order(3), Err(ContractError::OrderNotFound));
}

#[test]
fn order_book_errors() {
    let mut setup = TestSetup::new();
    let id = setup.create_invoice(1_000);
    setup.approve(id);
    assert_eq!(
        setup.contract.create_sell_order(id, setup.investor, 1, 1, T0),
        Err(ContractError::HoldingNotFound)
    );
    assert_eq!(
        setup.contract.create_sell_order(id, setup.supplier, 1_001, 1, T0),
        Err(ContractError::InsufficientTokens)
    );
    assert_eq!(
        setup.contract.create_sell_order(id, setup.supplier, 10, -1, T0),
        Err(ContractError::InvalidAmount)
    );
    let order = setup.contract.create_sell_order(id, setup.supplier, 600, 1, T0).unwrap();
    assert_eq!(setup.contract.fill_order(order, setup.investor, 1, T0), Err(ContractError::KYCRequired));
    setup.contract.set_investor_kyc(setup.admin, setup.investor, true).unwrap();
    assert_eq!(setup.contract.fill_order(7, setup.investor, 1, T0), Err(ContractError::OrderNotFound));
    assert_eq!(
        setup.contract.fill_order(order, setup.investor, 601, T0),
        Err(ContractError::InsufficientTokens)
    );
    // The listing reserves nothing: the seller's tokens may move away first.
    setup.contract.transfer_tokens(id, setup.supplier, setup.sub_vendor, 500, T0).unwrap();
    assert_eq!(
        setup.contract.fill_order(order, setup.investor, 600, T0),
        Err(ContractError::InsufficientTokens)
    );
    assert_eq!(setup.contract.get_order(order).unwrap().tokens_remaining, 600);
}

#[test]
fn check_status_is_idempotent() {
    let mut setup = TestSetup::new();
    let id = setup.create_sample_invoice();
    assert_eq!(setup.contract.check_status(id, T0 + 200 * DAY), Ok(InvoiceStatus::Draft));
    setup.approve(id);
    assert_eq!(setup.contract.check_status(id, T0 + 90 * DAY), Ok(InvoiceStatus::Verified));
    assert_eq!(setup.contract.check_status(id, T0 + 100 * DAY), Ok(InvoiceStatus::Overdue));
    assert_eq!(setup.contract.check_status(id, T0 + 100 * DAY), Ok(InvoiceStatus::Overdue));
    assert_eq!(setup.contract.check_status(id, T0 + 120 * DAY), Ok(InvoiceStatus::Overdue));
    assert_eq!(setup.contract.check_status(id, T0 + 120 * DAY + 1), Ok(InvoiceStatus::Defaulted));
    assert_eq!(setup.contract.check_status(id, T0 + 120 * DAY + 1), Ok(InvoiceStatus::Defaulted));
    assert_eq!(setup.contract.check_status(9999, T0), Err(ContractError::InvoiceNotFound));
}

#[test]
fn verify_document_matches_hash() {
    let mut setup = TestSetup::new();
    let id = setup
        .contract
        .mint_draft(
            setup.supplier,
            setup.buyer,
            10,
            "USD".to_string(),
            T0,
            String::new(),
            String::new(),
            "bafyhash".to_string(),
            T0,
        )
        .unwrap();
    assert!(setup.contract.verify_document(id, &"bafyhash".to_string()));
    assert!(!setup.contract.verify_document(id, &"other".to_string()));
    assert!(!setup.contract.verify_document(id + 1, &"bafyhash".to_string()));
}

#[test]
fn token_conservation_across_operations() {
    let mut setup = TestSetup::new();
    let id = setup.create_invoice(1_000);
    setup.approve(id);
    setup.contract.set_investor_kyc(setup.admin, setup.investor, true).unwrap();
    setup.contract.invest(id, setup.investor, 300, T0).unwrap();
    setup.contract.transfer_tokens(id, setup.investor, setup.sub_vendor, 100, T0).unwrap();
    let order = setup.contract.create_sell_order(id, setup.sub_vendor, 50, 1, T0).unwrap();
    setup.contract.fill_order(order, setup.investor, 50, T0).unwrap();
    let total: i128 = [setup.supplier, setup.investor, setup.sub_vendor]
        .iter()
        .map(|a| setup.contract.get_holding(id, *a).map(|h| h.amount).unwrap_or(0))
        .sum();
    assert_eq!(total, 1_000);
    assert_eq!(setup.contract.records[0].tokens_burned, 0);
    setup.contract.settle(id, setup.buyer, 1_000, T0).unwrap();
    assert_eq!(setup.contract.records[0].tokens_burned, 1_000);
}

#[test]
fn events_follow_the_lifecycle() {
    let mut setup = TestSetup::new();
    let id = setup.create_invoice(1_000);
    setup.approve(id);
    setup.contract.set_investor_kyc(setup.admin, setup.investor, true).unwrap();
    setup.contract.take_events();
    setup.contract.invest(id, setup.investor, 1_000, T0).unwrap();
    assert_eq!(
        setup.contract.take_events(),
        vec![
            InvoiceEvent::AuctionEnded { invoice_id: id, final_price: 1_000 },
            InvoiceEvent::InvestmentMade {
                invoice_id: id,
                investor: setup.investor,
                token_amount: 1_000,
                payment_amount: 1_000,
            },
        ]
    );
    setup.contract.transfer_tokens(id, setup.investor, setup.sub_vendor, 250, T0).unwrap();
    setup.contract.settle(id, setup.buyer, 1_001, T0).unwrap();
    assert_eq!(
        setup.contract.take_events(),
        vec![
            InvoiceEvent::TokenTransfer { invoice_id: id, from: setup.investor, to: setup.sub_vendor, amount: 250 },
            InvoiceEvent::SettlementDistributed { invoice_id: id, holder: setup.investor, amount: 750 },
            InvoiceEvent::SettlementDistributed { invoice_id: id, holder: setup.sub_vendor, amount: 250 },
            InvoiceEvent::InvoiceSettled { invoice_id: id, amount: 1_001 },
        ]
    );
}

#[test]
fn events_of_clawback_and_default() {
    let mut setup = TestSetup::new();
    let id = setup.create_invoice(1_000);
    setup.approve(id);
    setup.contract.transfer_tokens(id, setup.supplier, setup.sub_vendor, 400, T0).unwrap();
    setup.contract.raise_dispute(id, setup.buyer, "fraud".to_string(), T0).unwrap();
    setup.contract.take_events();
    setup.contract.resolve_dispute(id, setup.admin, true, T0).unwrap();
    assert_eq!(
        setup.contract.take_events(),
        vec![
            InvoiceEvent::ClawbackExecuted { invoice_id: id, holder: setup.supplier, amount: 600 },
            InvoiceEvent::ClawbackExecuted { invoice_id: id, holder: setup.sub_vendor, amount: 400 },
            InvoiceEvent::DisputeResolved { invoice_id: id, is_valid: true },
        ]
    );
    let other = setup.create_invoice(10);
    setup.approve(other);
    setup.contract.take_events();
    setup.contract.check_status(other, T0 + 200 * DAY).unwrap();
    setup.contract.check_status(other, T0 + 201 * DAY).unwrap();
    assert_eq!(setup.contract.take_events(), vec![InvoiceEvent::InvoiceDefaulted { invoice_id: other }]);
}

#[test]
fn dispute_is_ruled_once() {
    let mut setup = TestSetup::new();
    let id = setup.create_invoice(1_000);
    setup.approve(id);
    setup.contract.raise_dispute(id, setup.buyer, "fraud".to_string(), T0).unwrap();
    setup.contract.resolve_dispute(id, setup.admin, true, T0).unwrap();
    assert_eq!(setup.contract.resolve_dispute(id, setup.admin, false, T0), Err(ContractError::InvalidStatus));
    assert_eq!(setup.contract.get_invoice(id).unwrap().status, InvoiceStatus::Disputed);
    assert_eq!(setup.contract.get_dispute(id).unwrap().resolution, DisputeResolution::Valid);
}

#[test]
fn amounts_at_the_edge_of_the_range() {
    let mut setup = TestSetup::new();
    let max = i128::MAX;
    let r = setup.contract.mint_draft(
        setup.supplier,
        setup.buyer,
        0,
        String::new(),
        T0,
        String::new(),
        String::new(),
        String::new(),
        T0,
    );
    assert_eq!(r, Err(ContractError::InvalidAmount));
    let id = setup.create_invoice(max);
    setup.approve(id);
    setup.contract.set_investor_kyc(setup.admin, setup.investor, true).unwrap();
    setup.contract.invest(id, setup.investor, max, T0).unwrap();
    let holding = setup.contract.get_holding(id, setup.investor).unwrap();
    assert_eq!(holding.amount, max);
    assert_eq!(holding.acquired_price, max);
    // 5% of the payment, rounded down.
    assert_eq!(setup.contract.get_insurance_pool_balance(), max / 20);
    setup.contract.take_payments();
    setup.contract.settle(id, setup.buyer, max, T0).unwrap();
    assert_eq!(setup.contract.get_invoice(id).unwrap().status, InvoiceStatus::Settled);
    assert_eq!(
        setup.contract.take_payments(),
        vec![
            Payment { from: setup.buyer, to: setup.me, amount: max },
            Payment { from: setup.me, to: setup.investor, amount: max },
        ]
    );
}

#[test]
fn auction_on_the_largest_invoice() {
    let mut setup = TestSetup::new();
    let max = i128::MAX;
    let id = setup.create_invoice(max);
    setup.approve(id);
    setup.contract.start_auction(id, setup.supplier, 24, 1000, T0).unwrap();
    let inv = setup.contract.get_invoice(id).unwrap();
    assert_eq!(inv.min_price, max - max / 10);
    // One hour takes 50 basis points off.
    assert_eq!(setup.contract.get_current_price(id, T0 + 3600), Ok(max - max / 200));
    setup.contract.set_investor_kyc(setup.admin, setup.investor, true).unwrap();
    setup.contract.invest(id, setup.investor, max / 2, T0 + 3600).unwrap();
    // (max / 2) * (max - max / 200) / max, rounded down, is max / 2 - max / 400.
    let expected = max / 2 - max / 400;
    assert_eq!(setup.contract.get_holding(id, setup.investor).unwrap().acquired_price, expected);
}

#[test]
fn results_beyond_the_range_are_refused() {
    let me = Address { id: 100 };
    let admin = Address { id: 1 };
    let supplier = Address { id: 2 };
    let buyer = Address { id: 3 };
    let investor = Address { id: 4 };
    let mut c = SanginiInvoiceContract::new(me);
    c.initialize(admin, Address { id: 6 }, 1000, 2400, 30, u32::MAX).unwrap();
    c.set_investor_kyc(admin, investor, true).unwrap();
    let max = i128::MAX;
    let id = c
        .mint_draft(supplier, buyer, max, String::new(), T0, String::new(), String::new(), String::new(), T0)
        .unwrap();
    c.approve_invoice(id, buyer, T0).unwrap();
    // The insurance cut of u32::MAX basis points does not fit.
    assert_eq!(c.invest(id, investor, max, T0), Err(ContractError::InvalidAmount));
    // The investor already holds a token that carries the face amount as
    // its acquisition price, so one more purchase would overflow it.
    let mut setup = TestSetup::new();
    let id2 = setup.create_invoice(max);
    setup.approve(id2);
    setup.contract.set_investor_kyc(setup.admin, setup.investor, true).unwrap();
    setup.contract.transfer_tokens(id2, setup.supplier, setup.investor, 1, T0).unwrap();
    assert_eq!(setup.contract.invest(id2, setup.investor, 1, T0), Err(ContractError::InvalidAmount));
    // A fill whose payment does not fit.
    let order = setup.contract.create_sell_order(id2, setup.supplier, 2, max, T0).unwrap();
    assert_eq!(setup.contract.fill_order(order, setup.investor, 2, T0), Err(ContractError::InvalidAmount));
    assert_eq!(setup.contract.get_order(order).unwrap().tokens_remaining, 2);
    // Interest that does not fit.
    assert_eq!(setup.contract.get_settlement_amount(id2, T0 + DAY), Err(ContractError::InvalidAmount));
    assert_eq!(setup.contract.settle(id2, setup.buyer, max, T0 + DAY), Err(ContractError::InvalidAmount));
    assert_eq!(setup.contract.get_settlement_amount(id2, T0), Ok(max));
}

#[test]
fn interest_of_a_huge_invoice_stays_exact() {
    let mut setup = TestSetup::new();
    let amount: i128 = 1 << 100;
    let id = setup.create_invoice(amount);
    // 10 years past the due date at 24%: amount * 2400 * 3650 / 3_650_000 = amount * 2.4.
    let due = setup.contract.get_settlement_amount(id, T0 + 3650 * DAY).unwrap();
    assert_eq!(due, amount + amount * 24 / 10);
}
