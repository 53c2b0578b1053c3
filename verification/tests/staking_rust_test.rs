use staking_contract::{
    Address, Amount, StakingContract, StakingError, StakingPosition, APY, BLOCKS_IN_YEAR, MAX_PCT,
};

const USER_BALANCE: u64 = 1_000_000_000_000_000_000;

/// The ledger together with what surrounds it on a chain: the balances of the
/// user and of the contract, and the clock.
struct ContractSetup {
    ledger: StakingContract,
    user_address: Address,
    user_balance: Amount,
    contract_balance: Amount,
    block_nonce: u64,
    block_epoch: u64,
}

impl ContractSetup {
    fn new() -> Self {
        ContractSetup {
            ledger: StakingContract::init(),
            user_address: Address::new([7u8; 32]),
            user_balance: Amount::from_u64(USER_BALANCE),
            contract_balance: Amount::from_u64(0),
            block_nonce: 0,
            block_epoch: 0,
        }
    }

    fn pay_user(&mut self, amount: &Amount) {
        self.contract_balance = self.contract_balance.sub(amount);
        self.user_balance = self.user_balance.add(amount);
    }

    fn stake(&mut self, payment: Amount) -> Result<(), StakingError> {
        let user = self.user_address;
        let reward =
            self.ledger
                .stake(&user, payment.clone(), self.block_epoch, self.block_nonce)?;
        self.user_balance = self.user_balance.sub(&payment);
        self.contract_balance = self.contract_balance.add(&payment);
        self.pay_user(&reward);
        Ok(())
    }

    fn unstake(&mut self, amount: Option<Amount>) -> Result<(), StakingError> {
        let user = self.user_address;
        let payout = self.ledger.unstake(&user, amount, self.block_nonce)?;
        self.pay_user(&payout.reward);
        self.pay_user(&payout.principal);
        Ok(())
    }

    fn claim_rewards(&mut self) -> Result<(), StakingError> {
        let user = self.user_address;
        let reward = self.ledger.claim_rewards(&user, self.block_nonce)?;
        self.pay_user(&reward);
        Ok(())
    }
}

#[test]
fn stake_unstake_test() {
    let mut setup = ContractSetup::new();
    let user_addr = setup.user_address;

    assert_eq!(setup.user_balance, Amount::from_u64(USER_BALANCE));
    assert_eq!(setup.contract_balance, Amount::from_u64(0));

    // stake full
    setup.stake(Amount::from_u64(USER_BALANCE)).unwrap();
    assert_eq!(
        setup.ledger.staking_position(&user_addr),
        StakingPosition {
            stake_amount: Amount::from_u64(USER_BALANCE),
            last_action_block: 0
        }
    );

    assert_eq!(setup.user_balance, Amount::from_u64(0));
    assert_eq!(setup.contract_balance, Amount::from_u64(USER_BALANCE));

    // unstake partial
    setup
        .unstake(Some(Amount::from_u64(USER_BALANCE / 2)))
        .unwrap();
    assert_eq!(
        setup.ledger.staking_position(&user_addr),
        StakingPosition {
            stake_amount: Amount::from_u64(USER_BALANCE / 2),
            last_action_block: 0
        }
    );

    assert_eq!(setup.user_balance, Amount::from_u64(USER_BALANCE / 2));
    assert_eq!(setup.contract_balance, Amount::from_u64(USER_BALANCE / 2));

    // unstake full
    setup.unstake(None).unwrap();
    assert!(setup.ledger.require_user_staked(&user_addr).is_err());
    assert!(setup.ledger.staked_addresses().is_empty());
    assert_eq!(
        setup.ledger.staking_position(&user_addr),
        StakingPosition::default()
    );

    assert_eq!(setup.user_balance, Amount::from_u64(USER_BALANCE));
    assert_eq!(setup.contract_balance, Amount::from_u64(0));
}

#[test]
fn rewards_test() {
    let mut setup = ContractSetup::new();
    let user_addr = setup.user_address;

    // stake full
    setup.stake(Amount::from_u64(USER_BALANCE)).unwrap();
    assert_eq!(
        setup.ledger.staking_position(&user_addr),
        StakingPosition {
            stake_amount: Amount::from_u64(USER_BALANCE),
            last_action_block: 0
        }
    );

    setup.block_nonce = BLOCKS_IN_YEAR;

    // query rewards
    let actual_rewards = setup
        .ledger
        .calculate_rewards_for_user(user_addr, setup.block_nonce);
    let expected_rewards = Amount::from_u64(USER_BALANCE)
        .mul_u64(APY)
        .div_u64(MAX_PCT);
    assert_eq!(actual_rewards, expected_rewards);

    // claim rewards
    assert_eq!(
        setup.ledger.staking_position(&user_addr),
        StakingPosition {
            stake_amount: Amount::from_u64(USER_BALANCE),
            last_action_block: 0
        }
    );

    setup.claim_rewards().unwrap();

    assert_eq!(
        setup.ledger.staking_position(&user_addr),
        StakingPosition {
            stake_amount: Amount::from_u64(USER_BALANCE),
            last_action_block: BLOCKS_IN_YEAR
        }
    );

    assert_eq!(
        setup.user_balance,
        Amount::from_u64(USER_BALANCE).mul_u64(APY).div_u64(MAX_PCT)
    );

    // query rewards after claim
    let actual_rewards = setup
        .ledger
        .calculate_rewards_for_user(user_addr, setup.block_nonce);
    let expected_rewards = Amount::from_u64(0);
    assert_eq!(actual_rewards, expected_rewards);
}
